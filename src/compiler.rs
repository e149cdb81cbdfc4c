//! The single-pass compiler: a Pratt parser that emits bytecode as it reads.
use vstd::prelude::*;
use vstd::string::*;
use crate::chunk::{
    Byte, Chunk, OpCode, code_ok, decode_opcode, effect, lemma_code_ok_append, lemma_effect_append,
    lemma_effect_single, op_effect, lemma_code_ok_grow,
    lemma_code_ok_pair, lemma_code_ok_single, lemma_no_return_append, lemma_no_return_single, names_variable,
    no_return, opcode_byte, takes_operand,
};
use crate::text::{decimal, decimal_string};
use crate::tokenizer::{Token, TokenType, Tokenizer, lemma_scan_line, newlines, scan};
use crate::value::{Val, Value};

verus! {

/// The result of a compile or run step: on failure, a formatted diagnostic.
pub type ErrorResult<T> = Result<T, String>;

/// A diagnostic: `[line <N>] Error: <message>`.
pub open spec fn error_text(line: nat, message: Seq<char>) -> Seq<char> {
    "[line "@ + decimal(line) + "] Error: "@ + message
}

/// Some diagnostic of the form above.
pub open spec fn is_error_text(e: Seq<char>) -> bool {
    exists|line: nat, message: Seq<char>| e == error_text(line, message)
}

/// A failure, if any, carries a formatted diagnostic.
pub open spec fn reported<T>(r: Result<T, String>) -> bool {
    r is Err ==> is_error_text(r->Err_0@)
}

/// `n` is a line of `src`: one more than the newlines before some place.
pub open spec fn line_in_source(src: Seq<char>, n: nat) -> bool {
    exists|q: nat| q <= src.len() && n == 1 + newlines(src, 0, q)
}

/// A failure, if any, carries a formatted diagnostic whose line is a line of
/// `src`.
pub open spec fn reported_in<T>(r: Result<T, String>, src: Seq<char>) -> bool {
    r is Err ==> exists|line: nat, message: Seq<char>| line_in_source(src, line) && r->Err_0@ == error_text(line, message)
}

/// Formats a diagnostic for line `line`.
pub fn error_message(line: usize, message: &str) -> (r: String)
    ensures
        r@ == error_text(line as nat, message@),
{
    let mut e = String::from_str("[line ");
    let n = decimal_string(line);
    e.append(n.as_str());
    e.append("] Error: ");
    e.append(message);
    e
}

/// Binding strength of an operator, weakest first.
#[derive(Clone, Copy, PartialEq, Eq, Structural, Debug)]
pub enum Precedence {
    Lowest,
    Assignment,
    Or,
    And,
    Equality,
    Comparison,
    Term,
    Factor,
    Unary,
    Call,
    Primary,
}

pub open spec fn level(p: Precedence) -> u8 {
    match p {
        Precedence::Lowest => 0,
        Precedence::Assignment => 1,
        Precedence::Or => 2,
        Precedence::And => 3,
        Precedence::Equality => 4,
        Precedence::Comparison => 5,
        Precedence::Term => 6,
        Precedence::Factor => 7,
        Precedence::Unary => 8,
        Precedence::Call => 9,
        Precedence::Primary => 10,
    }
}

impl Precedence {
    pub fn level(self) -> (r: u8)
        ensures
            r == level(self),
    {
        match self {
            Precedence::Lowest => 0,
            Precedence::Assignment => 1,
            Precedence::Or => 2,
            Precedence::And => 3,
            Precedence::Equality => 4,
            Precedence::Comparison => 5,
            Precedence::Term => 6,
            Precedence::Factor => 7,
            Precedence::Unary => 8,
            Precedence::Call => 9,
            Precedence::Primary => 10,
        }
    }
}

/// The handler that a parse rule names.
#[derive(Clone, Copy, PartialEq, Eq, Structural, Debug)]
pub enum ParseFn {
    Grouping,
    Unary,
    Binary,
    Number,
    Literal,
    String,
    Variable,
}

/// How a token kind parses: as the start of an expression, after one, and
/// how strongly it binds there.
#[derive(Clone, Copy, PartialEq, Eq, Structural, Debug)]
pub struct ParseRule {
    pub prefix: Option<ParseFn>,
    pub infix: Option<ParseFn>,
    pub precedence: Precedence,
}

impl ParseRule {
    pub fn new(prefix: Option<ParseFn>, infix: Option<ParseFn>, precedence: Precedence) -> (r: Self)
        ensures
            r == (ParseRule { prefix, infix, precedence }),
    {
        ParseRule { prefix, infix, precedence }
    }
}

/// The parse rule of each token kind.
pub open spec fn rule_of(t: TokenType) -> ParseRule {
    match t {
        TokenType::LParen => ParseRule { prefix: Some(ParseFn::Grouping), infix: None, precedence: Precedence::Lowest },
        TokenType::Minus => ParseRule { prefix: Some(ParseFn::Unary), infix: Some(ParseFn::Binary), precedence: Precedence::Term },
        TokenType::Plus => ParseRule { prefix: None, infix: Some(ParseFn::Binary), precedence: Precedence::Term },
        TokenType::Slash => ParseRule { prefix: None, infix: Some(ParseFn::Binary), precedence: Precedence::Factor },
        TokenType::Asterisk => ParseRule { prefix: None, infix: Some(ParseFn::Binary), precedence: Precedence::Factor },
        TokenType::Number => ParseRule { prefix: Some(ParseFn::Number), infix: None, precedence: Precedence::Lowest },
        TokenType::Bang => ParseRule { prefix: Some(ParseFn::Unary), infix: None, precedence: Precedence::Lowest },
        TokenType::BangEq => ParseRule { prefix: None, infix: Some(ParseFn::Binary), precedence: Precedence::Equality },
        TokenType::EqEq => ParseRule { prefix: None, infix: Some(ParseFn::Binary), precedence: Precedence::Equality },
        TokenType::Greater => ParseRule { prefix: None, infix: Some(ParseFn::Binary), precedence: Precedence::Comparison },
        TokenType::GreaterEq => ParseRule { prefix: None, infix: Some(ParseFn::Binary), precedence: Precedence::Comparison },
        TokenType::Less => ParseRule { prefix: None, infix: Some(ParseFn::Binary), precedence: Precedence::Comparison },
        TokenType::LessEq => ParseRule { prefix: None, infix: Some(ParseFn::Binary), precedence: Precedence::Comparison },
        TokenType::False => ParseRule { prefix: Some(ParseFn::Literal), infix: None, precedence: Precedence::Lowest },
        TokenType::True => ParseRule { prefix: Some(ParseFn::Literal), infix: None, precedence: Precedence::Lowest },
        TokenType::Nil => ParseRule { prefix: Some(ParseFn::Literal), infix: None, precedence: Precedence::Lowest },
        TokenType::String => ParseRule { prefix: Some(ParseFn::String), infix: None, precedence: Precedence::Lowest },
        TokenType::Ident => ParseRule { prefix: Some(ParseFn::Variable), infix: None, precedence: Precedence::Lowest },
        _ => ParseRule { prefix: None, infix: None, precedence: Precedence::Lowest },
    }
}

/// The instructions that a binary operator compiles to.
pub open spec fn binary_code(t: TokenType) -> Seq<u8> {
    match t {
        TokenType::Plus => seq![opcode_byte(OpCode::Add)],
        TokenType::Minus => seq![opcode_byte(OpCode::Subtract)],
        TokenType::Asterisk => seq![opcode_byte(OpCode::Multiply)],
        TokenType::Slash => seq![opcode_byte(OpCode::Divide)],
        TokenType::BangEq => seq![opcode_byte(OpCode::Equal), opcode_byte(OpCode::Not)],
        TokenType::EqEq => seq![opcode_byte(OpCode::Equal)],
        TokenType::Greater => seq![opcode_byte(OpCode::Greater)],
        TokenType::GreaterEq => seq![opcode_byte(OpCode::Less), opcode_byte(OpCode::Not)],
        TokenType::Less => seq![opcode_byte(OpCode::Less)],
        _ => seq![opcode_byte(OpCode::Greater), opcode_byte(OpCode::Not)],
    }
}

/// The bytes of a piece of code, without their lines.
pub open spec fn code_bytes(code: Seq<Byte>) -> Seq<u8> {
    code.map_values(|b: Byte| b.byte)
}

/// `b` holds `a` at its start.
pub open spec fn extends(a: Seq<Value>, b: Seq<Value>) -> bool {
    a.len() <= b.len() && forall|i: int| 0 <= i < a.len() ==> b[i] == a[i]
}

/// Whether `a` ends with `b`.
pub open spec fn ends_with(a: Seq<u8>, b: Seq<u8>) -> bool {
    a.len() >= b.len() && a.subrange(a.len() - b.len(), a.len() as int) == b
}

proof fn lemma_code_bytes_push(c: Seq<Byte>, b: Byte)
    ensures
        code_bytes(c.push(b)) == code_bytes(c).push(b.byte),
{
    assert(code_bytes(c.push(b)) =~= code_bytes(c).push(b.byte));
}

/// A token as the compiler sees it: kind, text, line.
pub type TokV = (TokenType, Seq<char>, nat);

/// The compiler's state: the lexer's position and line, the current and the
/// previous token, the code so far and the views of the constants so far.
pub type PState = (nat, nat, TokV, TokV, Seq<Byte>, Seq<Val>);

/// A compile step: the state after it, or the diagnostic it stops with.
pub type PResult = Result<PState, Seq<char>>;

/// What is left to read: the characters after the lexer, and the current
/// token unless it is the end.
pub open spec fn p_measure(src: Seq<char>, s: PState) -> nat {
    (if s.0 <= src.len() { (src.len() - s.0) as nat } else { 0nat }) + (if s.2.0 != TokenType::EndOfFile {
        1nat
    } else {
        0nat
    })
}

/// The state a compiler starts in.
pub open spec fn initial_state() -> PState {
    (0, 1, (TokenType::EndOfFile, Seq::empty(), 1), (TokenType::EndOfFile, Seq::empty(), 1), Seq::empty(), Seq::empty())
}

/// The views of a pool of constants.
pub open spec fn pool_views(pool: Seq<Value>) -> Seq<Val> {
    pool.map_values(|v: Value| v@)
}

pub open spec fn sp_advance(src: Seq<char>, s: PState) -> PResult {
    let (t, q, l) = scan(src, s.0, s.1);
    if t.0 == TokenType::Error {
        Err(error_text(t.2, t.1))
    } else {
        Ok((q, l, t, s.2, s.4, s.5))
    }
}

pub open spec fn sp_match(src: Seq<char>, s: PState, ty: TokenType) -> Result<(PState, bool), Seq<char>> {
    if s.2.0 != ty {
        Ok((s, false))
    } else {
        match sp_advance(src, s) {
            Ok(s1) => Ok((s1, true)),
            Err(e) => Err(e),
        }
    }
}

pub open spec fn sp_consume(src: Seq<char>, s: PState, ty: TokenType, message: Seq<char>) -> PResult {
    if s.2.0 == ty {
        sp_advance(src, s)
    } else {
        Err(error_text(s.2.2, message))
    }
}

/// Appends one byte, on the line of the previous token.
pub open spec fn sp_emit(s: PState, b: u8) -> PState {
    (s.0, s.1, s.2, s.3, s.4.push(Byte { byte: b, line: s.3.2 as usize }), s.5)
}

pub open spec fn sp_emit_code(s: PState, code: Seq<u8>) -> PState {
    if code.len() == 1 {
        sp_emit(s, code[0])
    } else {
        sp_emit(sp_emit(s, code[0]), code[1])
    }
}

pub open spec fn sp_constant(s: PState, v: Val) -> Result<(PState, nat), Seq<char>> {
    if s.5.len() >= 256 {
        Err(error_text(s.3.2, "Too many constants in one chunk."@))
    } else {
        Ok(((s.0, s.1, s.2, s.3, s.4, s.5.push(v)), s.5.len()))
    }
}

pub open spec fn sp_write_constant(s: PState, v: Val) -> PResult {
    match sp_constant(s, v) {
        Ok((s1, i)) => Ok(sp_emit(sp_emit(s1, opcode_byte(OpCode::Constant)), i as u8)),
        Err(e) => Err(e),
    }
}

pub open spec fn literal_byte(t: TokenType) -> u8 {
    match t {
        TokenType::False => opcode_byte(OpCode::False),
        TokenType::True => opcode_byte(OpCode::True),
        _ => opcode_byte(OpCode::Nil),
    }
}

/// An expression whose operators bind at least at level `prec`.
pub open spec fn sp_prec(src: Seq<char>, s: PState, prec: nat) -> PResult
    decreases p_measure(src, s), 0nat,
{
    match sp_advance(src, s) {
        Err(e) => Err(e),
        Ok(s1) => {
            let m = p_measure(src, s);
            let shorter = p_measure(src, s1) < m;
            let pre = match rule_of(s1.3.0).prefix {
                None => Err(error_text(s1.3.2, "Expected expression."@)),
                Some(ParseFn::Binary) => Err(error_text(s1.3.2, "Expected expression."@)),
                Some(ParseFn::Grouping) => if shorter { sp_grouping(src, s1) } else { Err(Seq::empty()) },
                Some(ParseFn::Unary) => if shorter { sp_unary(src, s1) } else { Err(Seq::empty()) },
                Some(ParseFn::Number) => sp_write_constant(s1, Val::Number(s1.3.1)),
                Some(ParseFn::Literal) => Ok(sp_emit(s1, literal_byte(s1.3.0))),
                Some(ParseFn::String) => sp_write_constant(s1, Val::Str(s1.3.1)),
                Some(ParseFn::Variable) => if shorter { sp_named(src, s1, prec <= 1) } else { Err(Seq::empty()) },
            };
            match pre {
                Err(e) => Err(e),
                Ok(s2) => if p_measure(src, s2) < m { sp_infix(src, s2, prec) } else { Err(Seq::empty()) },
            }
        },
    }
}

/// The binary operators that follow, while they bind at least at `prec`.
pub open spec fn sp_infix(src: Seq<char>, s: PState, prec: nat) -> PResult
    decreases p_measure(src, s), 0nat,
{
    if prec > level(rule_of(s.2.0).precedence) {
        Ok(s)
    } else {
        match sp_advance(src, s) {
            Err(e) => Err(e),
            Ok(s1) => if p_measure(src, s1) < p_measure(src, s) {
                match sp_binary(src, s1) {
                    Err(e) => Err(e),
                    Ok(s2) => if p_measure(src, s2) < p_measure(src, s) {
                        sp_infix(src, s2, prec)
                    } else {
                        Err(Seq::empty())
                    },
                }
            } else {
                Err(Seq::empty())
            },
        }
    }
}

/// The right operand of the operator just read, one level tighter, then
/// the operator's code.
pub open spec fn sp_binary(src: Seq<char>, s: PState) -> PResult
    decreases p_measure(src, s), 1nat,
{
    let op = s.3.0;
    match sp_prec(src, s, (level(rule_of(op).precedence) + 1) as nat) {
        Err(e) => Err(e),
        Ok(s1) => Ok(sp_emit_code(s1, binary_code(op))),
    }
}

pub open spec fn sp_grouping(src: Seq<char>, s: PState) -> PResult
    decreases p_measure(src, s), 1nat,
{
    match sp_prec(src, s, 1) {
        Err(e) => Err(e),
        Ok(s1) => sp_consume(src, s1, TokenType::RParen, "Expected ')' after expression."@),
    }
}

pub open spec fn sp_unary(src: Seq<char>, s: PState) -> PResult
    decreases p_measure(src, s), 1nat,
{
    let op = s.3.0;
    match sp_prec(src, s, 8) {
        Err(e) => Err(e),
        Ok(s1) => Ok(sp_emit(
            s1,
            if op == TokenType::Minus { opcode_byte(OpCode::Negate) } else { opcode_byte(OpCode::Not) },
        )),
    }
}

/// A variable named by the previous token: read, or assigned where allowed
/// and `=` follows.
pub open spec fn sp_named(src: Seq<char>, s: PState, can_assign: bool) -> PResult
    decreases p_measure(src, s), 1nat,
{
    match sp_constant(s, Val::Str(s.3.1)) {
        Err(e) => Err(e),
        Ok((s1, arg)) => if can_assign {
            match sp_match(src, s1, TokenType::Eq) {
                Err(e) => Err(e),
                Ok((s2, true)) => if p_measure(src, s2) <= p_measure(src, s) {
                    match sp_prec(src, s2, 1) {
                        Err(e) => Err(e),
                        Ok(s3) => Ok(sp_emit(sp_emit(s3, opcode_byte(OpCode::SetGlobal)), arg as u8)),
                    }
                } else {
                    Err(Seq::empty())
                },
                Ok((s2, false)) => Ok(sp_emit(sp_emit(s2, opcode_byte(OpCode::GetGlobal)), arg as u8)),
            }
        } else {
            Ok(sp_emit(sp_emit(s1, opcode_byte(OpCode::GetGlobal)), arg as u8))
        },
    }
}

pub open spec fn sp_expression_statement(src: Seq<char>, s: PState) -> PResult {
    match sp_prec(src, s, 1) {
        Err(e) => Err(e),
        Ok(s1) => match sp_consume(src, s1, TokenType::Semicolon, "Expect ';' after expression."@) {
            Err(e) => Err(e),
            Ok(s2) => Ok(sp_emit(s2, opcode_byte(OpCode::Pop))),
        },
    }
}

pub open spec fn sp_print_statement(src: Seq<char>, s: PState) -> PResult {
    match sp_prec(src, s, 1) {
        Err(e) => Err(e),
        Ok(s1) => match sp_consume(src, s1, TokenType::Semicolon, "Expected ';' after value."@) {
            Err(e) => Err(e),
            Ok(s2) => Ok(sp_emit(s2, opcode_byte(OpCode::Print))),
        },
    }
}

pub open spec fn sp_var_declaration(src: Seq<char>, s: PState) -> PResult {
    match sp_consume(src, s, TokenType::Ident, "Expected variable name."@) {
        Err(e) => Err(e),
        Ok(s1) => match sp_constant(s1, Val::Str(s1.3.1)) {
            Err(e) => Err(e),
            Ok((s2, g)) => match sp_match(src, s2, TokenType::Eq) {
                Err(e) => Err(e),
                Ok((s3, b)) => {
                    let r4 = if b { sp_prec(src, s3, 1) } else { Ok(sp_emit(s3, opcode_byte(OpCode::Nil))) };
                    match r4 {
                        Err(e) => Err(e),
                        Ok(s4) => match sp_consume(src, s4, TokenType::Semicolon, "Expected ';' after variable declaration."@) {
                            Err(e) => Err(e),
                            Ok(s5) => Ok(sp_emit(sp_emit(s5, opcode_byte(OpCode::DefineGlobal)), g as u8)),
                        },
                    }
                },
            },
        },
    }
}

pub open spec fn sp_declaration(src: Seq<char>, s: PState) -> PResult
    decreases p_measure(src, s), 3nat,
{
    match sp_match(src, s, TokenType::Var) {
        Err(e) => Err(e),
        Ok((s1, true)) => sp_var_declaration(src, s1),
        Ok((_, false)) => sp_statement(src, s),
    }
}

pub open spec fn sp_statement(src: Seq<char>, s: PState) -> PResult
    decreases p_measure(src, s), 2nat,
{
    match sp_match(src, s, TokenType::Print) {
        Err(e) => Err(e),
        Ok((s1, true)) => sp_print_statement(src, s1),
        Ok((_, false)) => match sp_match(src, s, TokenType::LBrace) {
            Err(e) => Err(e),
            Ok((s1, true)) => if p_measure(src, s1) < p_measure(src, s) {
                match sp_block(src, s1) {
                    Err(e) => Err(e),
                    Ok(s2) => sp_consume(src, s2, TokenType::RBrace, "Expect '(' after block."@),
                }
            } else {
                Err(Seq::empty())
            },
            Ok((_, false)) => sp_expression_statement(src, s),
        },
    }
}

/// The declarations of a block, up to its `}` or the end.
pub open spec fn sp_block(src: Seq<char>, s: PState) -> PResult
    decreases p_measure(src, s), 4nat,
{
    if s.2.0 == TokenType::RBrace || s.2.0 == TokenType::EndOfFile {
        Ok(s)
    } else {
        match sp_declaration(src, s) {
            Err(e) => Err(e),
            Ok(s2) => if p_measure(src, s2) < p_measure(src, s) { sp_block(src, s2) } else { Err(Seq::empty()) },
        }
    }
}

/// Declarations up to the end, then `Return`.
pub open spec fn sp_program(src: Seq<char>, s: PState) -> PResult
    decreases p_measure(src, s),
{
    match sp_match(src, s, TokenType::EndOfFile) {
        Err(e) => Err(e),
        Ok((s1, true)) => Ok(sp_emit(s1, opcode_byte(OpCode::Return))),
        Ok((_, false)) => match sp_declaration(src, s) {
            Err(e) => Err(e),
            Ok(s2) => if p_measure(src, s2) < p_measure(src, s) { sp_program(src, s2) } else { Err(Seq::empty()) },
        },
    }
}

/// Compiling from state `s`: a fresh chunk, the first token, the program.
pub open spec fn sp_parse(src: Seq<char>, s: PState) -> PResult {
    match sp_advance(src, (s.0, s.1, s.2, s.3, Seq::empty(), Seq::empty())) {
        Err(e) => Err(e),
        Ok(s1) => sp_program(src, s1),
    }
}

/// What `src` compiles to: the code with its lines and the constants, or
/// the first diagnostic.
pub open spec fn compiled(src: Seq<char>) -> PResult {
    sp_parse(src, initial_state())
}

/// Whether a step's result agrees with the spec's: the same failure, or
/// success with the same state.
pub open spec fn agrees<T>(r: Result<T, String>, fin: PState, sp: PResult) -> bool {
    match sp {
        Ok(t) => r is Ok && fin == t,
        Err(e) => r is Err && r->Err_0@ == e,
    }
}

/// A compiler over one source text.
pub struct Parser {
    tokenizer: Tokenizer,
    chunk: Chunk,
    current: Token,
    previous: Token,
}

impl Parser {
    pub closed spec fn wf(&self) -> bool {
        &&& self.tokenizer.wf()
        &&& self.tokenizer.cursor() <= self.tokenizer.source_chars().len()
        &&& self.tokenizer.source_chars().len() < usize::MAX
        &&& self.chunk.constants().len() <= 256
        &&& code_ok(code_bytes(self.chunk.code()), self.chunk.constants())
        &&& no_return(code_bytes(self.chunk.code()))
        &&& self.tokenizer.current_line() == 1 + newlines(self.tokenizer.source_chars(), 0, self.tokenizer.cursor())
        &&& line_in_source(self.tokenizer.source_chars(), self.current.line as nat)
        &&& line_in_source(self.tokenizer.source_chars(), self.previous.line as nat)
    }

    /// The compiler's state as the grammar sees it.
    pub closed spec fn pstate(&self) -> PState {
        (
            self.tokenizer.cursor(),
            self.tokenizer.current_line(),
            self.current@,
            self.previous@,
            self.chunk.code(),
            pool_views(self.chunk.constants()),
        )
    }

    /// What is left to read.
    pub closed spec fn measure(&self) -> nat {
        p_measure(self.tokenizer.source_chars(), self.pstate())
    }

    /// The code compiled so far.
    pub closed spec fn code(&self) -> Seq<Byte> {
        self.chunk.code()
    }

    /// The token the lexer gives next, where it then stands, and its line.
    pub closed spec fn next_scan(&self) -> ((TokenType, Seq<char>, nat), nat, nat) {
        scan(self.tokenizer.source_chars(), self.tokenizer.cursor(), self.tokenizer.current_line())
    }

    /// The current token: the one the parser looks at next.
    pub closed spec fn current_token(&self) -> (TokenType, Seq<char>, nat) {
        self.current@
    }

    /// The net change in stack depth of the code compiled so far.
    pub closed spec fn net_effect(&self) -> int {
        effect(code_bytes(self.chunk.code()))
    }

    /// The constant pool compiled so far.
    pub closed spec fn constants(&self) -> Seq<Value> {
        self.chunk.constants()
    }

    /// The line of the token read last.
    pub closed spec fn previous_line(&self) -> usize {
        self.previous.line
    }

    /// The source text.
    pub closed spec fn source(&self) -> Seq<char> {
        self.tokenizer.source_chars()
    }

    pub fn new(code: &str) -> (r: Self)
        requires
            code@.len() < usize::MAX,
        ensures
            r.wf(),
            r.source() == code@,
            r.pstate() == initial_state(),
            r.next_scan() == scan(code@, 0, 1),
    {
        let chunk = Chunk::new();
        proof {
            assert(code_bytes(chunk.code()) =~= Seq::<u8>::empty());
            assert(newlines(code@, 0, 0) == 0);
            assert(line_in_source(code@, 1) ) by {
                assert(0 <= code@.len() && 1 == 1 + newlines(code@, 0, 0));
            }
        }
        Self {
            tokenizer: Tokenizer::new(code),
            chunk,
            previous: Token::new_no_text(TokenType::EndOfFile, 1),
            current: Token::new_no_text(TokenType::EndOfFile, 1),
        }
    }

    fn get_parse_rule(t: TokenType) -> (r: ParseRule)
        ensures
            r == rule_of(t),
    {
        match t {
            TokenType::LParen => ParseRule::new(Some(ParseFn::Grouping), None, Precedence::Lowest),
            TokenType::Minus => ParseRule::new(Some(ParseFn::Unary), Some(ParseFn::Binary), Precedence::Term),
            TokenType::Plus => ParseRule::new(None, Some(ParseFn::Binary), Precedence::Term),
            TokenType::Slash => ParseRule::new(None, Some(ParseFn::Binary), Precedence::Factor),
            TokenType::Asterisk => ParseRule::new(None, Some(ParseFn::Binary), Precedence::Factor),
            TokenType::Number => ParseRule::new(Some(ParseFn::Number), None, Precedence::Lowest),
            TokenType::Bang => ParseRule::new(Some(ParseFn::Unary), None, Precedence::Lowest),
            TokenType::BangEq => ParseRule::new(None, Some(ParseFn::Binary), Precedence::Equality),
            TokenType::EqEq => ParseRule::new(None, Some(ParseFn::Binary), Precedence::Equality),
            TokenType::Greater => ParseRule::new(None, Some(ParseFn::Binary), Precedence::Comparison),
            TokenType::GreaterEq => ParseRule::new(None, Some(ParseFn::Binary), Precedence::Comparison),
            TokenType::Less => ParseRule::new(None, Some(ParseFn::Binary), Precedence::Comparison),
            TokenType::LessEq => ParseRule::new(None, Some(ParseFn::Binary), Precedence::Comparison),
            TokenType::False => ParseRule::new(Some(ParseFn::Literal), None, Precedence::Lowest),
            TokenType::True => ParseRule::new(Some(ParseFn::Literal), None, Precedence::Lowest),
            TokenType::Nil => ParseRule::new(Some(ParseFn::Literal), None, Precedence::Lowest),
            TokenType::String => ParseRule::new(Some(ParseFn::String), None, Precedence::Lowest),
            TokenType::Ident => ParseRule::new(Some(ParseFn::Variable), None, Precedence::Lowest),
            _ => ParseRule::new(None, None, Precedence::Lowest),
        }
    }

    /// Moves to the next token; a lexing error becomes a diagnostic at its line.
    fn advance(&mut self) -> (r: ErrorResult<()>)
        requires
            old(self).wf(),
        ensures
            final(self).wf(),
            final(self).source() == old(self).source(),
            agrees(r, final(self).pstate(), sp_advance(old(self).source(), old(self).pstate())),
            extends(old(self).chunk.constants(), final(self).chunk.constants()),
            final(self).previous == old(self).current,
            final(self).chunk == old(self).chunk,
            final(self).current@ == scan(
                old(self).tokenizer.source_chars(),
                old(self).tokenizer.cursor(),
                old(self).tokenizer.current_line(),
            ).0,
            (r is Err) == (final(self).current.ty == TokenType::Error),
            final(self).tokenizer.cursor() == scan(
                old(self).tokenizer.source_chars(),
                old(self).tokenizer.cursor(),
                old(self).tokenizer.current_line(),
            ).1,
            r is Err ==> r->Err_0@ == error_text(final(self).current.line as nat, final(self).current.text@),
            final(self).measure() <= old(self).measure(),
            old(self).current.ty != TokenType::EndOfFile ==> final(self).measure() < old(self).measure(),
            reported_in(r, old(self).source()),
    {
        proof {
            lemma_scan_line(self.tokenizer.source_chars(), self.tokenizer.cursor());
        }
        let mut next = self.tokenizer.scan_token();
        core::mem::swap(&mut self.current, &mut next);
        self.previous = next;
        if self.current.ty == TokenType::Error {
            return Err(error_message(self.current.line, self.current.text.as_str()));
        }
        Ok(())
    }

    fn check(&self, ty: TokenType) -> (r: bool)
        ensures
            r == (self.current.ty == ty),
    {
        self.current.ty == ty
    }

    fn match_tok(&mut self, ty: TokenType) -> (r: ErrorResult<bool>)
        requires
            old(self).wf(),
        ensures
            final(self).wf(),
            final(self).source() == old(self).source(),
            match sp_match(old(self).source(), old(self).pstate(), ty) { Ok((t, b)) => r == Ok::<bool, String>(b) && final(self).pstate() == t, Err(e) => r is Err && r->Err_0@ == e },
            extends(old(self).chunk.constants(), final(self).chunk.constants()),
            final(self).chunk == old(self).chunk,
            final(self).measure() <= old(self).measure(),
            r == Ok::<bool, String>(false) ==> *final(self) == *old(self) && old(self).current.ty != ty,
            r == Ok::<bool, String>(true) ==> old(self).current.ty == ty && final(self).previous == old(self).current,
            r is Err ==> scan(
                old(self).tokenizer.source_chars(),
                old(self).tokenizer.cursor(),
                old(self).tokenizer.current_line(),
            ).0.0 == TokenType::Error,
            (r is Ok && old(self).current.ty == ty && ty != TokenType::EndOfFile) ==> final(self).measure() < old(self).measure(),
            reported_in(r, old(self).source()),
    {
        if !self.check(ty) {
            return Ok(false);
        }
        self.advance()?;
        Ok(true)
    }

    fn consume(&mut self, ty: TokenType, message: &str) -> (r: ErrorResult<()>)
        requires
            old(self).wf(),
        ensures
            final(self).wf(),
            final(self).source() == old(self).source(),
            agrees(r, final(self).pstate(), sp_consume(old(self).source(), old(self).pstate(), ty, message@)),
            extends(old(self).chunk.constants(), final(self).chunk.constants()),
            final(self).chunk == old(self).chunk,
            final(self).measure() <= old(self).measure(),
            r is Ok ==> old(self).current.ty == ty,
            (old(self).current.ty == ty && r is Err) ==> r->Err_0@ == error_text(scan(old(self).tokenizer.source_chars(), old(self).tokenizer.cursor(), old(self).tokenizer.current_line()).0.2, scan(old(self).tokenizer.source_chars(), old(self).tokenizer.cursor(), old(self).tokenizer.current_line()).0.1),
            (r is Ok && ty != TokenType::EndOfFile) ==> final(self).measure() < old(self).measure(),
            reported_in(r, old(self).source()),
    {
        if self.current.ty == ty {
            self.advance()?;
            return Ok(());
        }
        Err(error_message(self.current.line, message))
    }

    fn write_byte(&mut self, byte: u8)
        requires
            old(self).wf(),
            decode_opcode(byte) matches Some(op) && !takes_operand(op) && op != OpCode::Return,
        ensures
            final(self).wf(),
            final(self).current == old(self).current,
            final(self).source() == old(self).source(),
            final(self).pstate() == sp_emit(old(self).pstate(), byte),
            extends(old(self).chunk.constants(), final(self).chunk.constants()),
            final(self).measure() == old(self).measure(),
            final(self).previous == old(self).previous,
            final(self).chunk.code() == old(self).chunk.code().push(Byte { byte, line: old(self).previous.line }),
            final(self).chunk.constants() == old(self).chunk.constants(),
            final(self).net_effect() == old(self).net_effect() + op_effect(decode_opcode(byte)->0),
    {
        self.chunk.write_byte(Byte::new(byte, self.previous.line));
        proof {
            lemma_code_bytes_push(old(self).chunk.code(), Byte { byte, line: self.previous.line });
            lemma_code_ok_single(byte, self.chunk.constants());
            assert(code_bytes(old(self).chunk.code()).push(byte) =~= code_bytes(old(self).chunk.code()) + seq![byte]);
            lemma_code_ok_append(code_bytes(old(self).chunk.code()), seq![byte], self.chunk.constants());
            lemma_effect_append(code_bytes(old(self).chunk.code()), seq![byte], self.chunk.constants());
            lemma_effect_single(byte, 0);
            lemma_no_return_single(byte, 0);
            lemma_no_return_append(code_bytes(old(self).chunk.code()), seq![byte], self.chunk.constants());
        }
    }

    fn write_bytes(&mut self, byte1: u8, byte2: u8)
        requires
            old(self).wf(),
            decode_opcode(byte1) matches Some(op) && op != OpCode::Return,
            ({
                let op = decode_opcode(byte1)->0;
                if takes_operand(op) {
                    &&& (byte2 as nat) < old(self).chunk.constants().len()
                    &&& names_variable(op) ==> old(self).chunk.constants()[byte2 as int] is String
                } else {
                    decode_opcode(byte2) matches Some(op2) && !takes_operand(op2) && op2 != OpCode::Return
                }
            }),
        ensures
            final(self).wf(),
            final(self).source() == old(self).source(),
            final(self).pstate() == sp_emit(sp_emit(old(self).pstate(), byte1), byte2),
            extends(old(self).chunk.constants(), final(self).chunk.constants()),
            final(self).measure() == old(self).measure(),
            final(self).previous == old(self).previous,
            final(self).chunk.code() == old(self).chunk.code().push(Byte { byte: byte1, line: old(self).previous.line }).push(
                Byte { byte: byte2, line: old(self).previous.line },
            ),
            final(self).chunk.constants() == old(self).chunk.constants(),
            final(self).net_effect() == old(self).net_effect() + op_effect(decode_opcode(byte1)->0) + (if takes_operand(decode_opcode(byte1)->0) { 0 } else { op_effect(decode_opcode(byte2)->0) }),
    {
        let line = self.previous.line;
        self.chunk.write_byte(Byte::new(byte1, line));
        self.chunk.write_byte(Byte::new(byte2, line));
        proof {
            let before = code_bytes(old(self).chunk.code());
            let pool = self.chunk.constants();
            assert(code_bytes(self.chunk.code()) =~= before + seq![byte1, byte2]);
            if takes_operand(decode_opcode(byte1)->0) {
                lemma_code_ok_pair(byte1, byte2, pool);
            } else {
                lemma_code_ok_single(byte1, pool);
                lemma_code_ok_single(byte2, pool);
                lemma_code_ok_append(seq![byte1], seq![byte2], pool);
                assert(seq![byte1] + seq![byte2] =~= seq![byte1, byte2]);
            }
            lemma_code_ok_append(before, seq![byte1, byte2], pool);
            lemma_effect_append(before, seq![byte1, byte2], pool);
            lemma_effect_single(byte1, byte2);
            lemma_no_return_single(byte1, byte2);
            if !takes_operand(decode_opcode(byte1)->0) {
                lemma_no_return_single(byte2, 0);
                lemma_no_return_append(seq![byte1], seq![byte2], pool);
                lemma_code_ok_single(byte1, pool);
                lemma_effect_append(seq![byte1], seq![byte2], pool);
                lemma_effect_single(byte2, 0);
            }
            lemma_no_return_append(before, seq![byte1, byte2], pool);
        }
    }

    /// Adds a constant; a full pool is a diagnostic at the previous token.
    fn make_constant(&mut self, value: Value) -> (r: ErrorResult<u8>)
        requires
            old(self).wf(),
        ensures
            final(self).wf(),
            final(self).source() == old(self).source(),
            match sp_constant(old(self).pstate(), value@) { Ok((t, i)) => r == Ok::<u8, String>(i as u8) && final(self).pstate() == t, Err(e) => r is Err && r->Err_0@ == e },
            extends(old(self).chunk.constants(), final(self).chunk.constants()),
            final(self).measure() == old(self).measure(),
            final(self).previous == old(self).previous,
            final(self).chunk.code() == old(self).chunk.code(),
            (r is Err) == (old(self).chunk.constants().len() == 256),
            r is Ok ==> final(self).chunk.constants() == old(self).chunk.constants().push(value)
                && r->Ok_0 as nat == old(self).chunk.constants().len(),
            r is Err ==> r->Err_0@ == error_text(old(self).previous.line as nat, "Too many constants in one chunk."@),
    {
        if self.chunk.constant_count() >= 256 {
            return Err(error_message(self.previous.line, "Too many constants in one chunk."));
        }
        let index = self.chunk.write_value(value);
        proof {
            lemma_code_ok_grow(code_bytes(self.chunk.code()), old(self).chunk.constants(), self.chunk.constants());
        }
        Ok(index)
    }

    fn write_constant(&mut self, value: Value) -> (r: ErrorResult<()>)
        requires
            old(self).wf(),
        ensures
            final(self).wf(),
            final(self).source() == old(self).source(),
            agrees(r, final(self).pstate(), sp_write_constant(old(self).pstate(), value@)),
            extends(old(self).chunk.constants(), final(self).chunk.constants()),
            final(self).measure() == old(self).measure(),
            final(self).previous == old(self).previous,
            r is Ok ==> code_bytes(final(self).chunk.code()) == code_bytes(old(self).chunk.code()) + seq![
                opcode_byte(OpCode::Constant),
                old(self).chunk.constants().len() as u8,
            ],
            r is Ok ==> final(self).chunk.constants() == old(self).chunk.constants().push(value),
            reported_in(r, old(self).source()),
            r is Ok ==> final(self).net_effect() == old(self).net_effect() + 1,
    {
        let value_byte = self.make_constant(value)?;
        self.write_bytes(OpCode::Constant.to_byte(), value_byte);
        proof {
            assert(code_bytes(self.chunk.code()) =~= code_bytes(old(self).chunk.code()) + seq![
                opcode_byte(OpCode::Constant),
                old(self).chunk.constants().len() as u8,
            ]);
        }
        Ok(())
    }

    /// Ends the code with `Return` and hands over the finished chunk.
    fn end_compilation(&mut self) -> (r: Chunk)
        requires
            old(self).wf(),
        ensures
            final(self).wf(),
            final(self).source() == old(self).source(),
            r.constants() == old(self).chunk.constants(),
            r.code() == sp_emit(old(self).pstate(), opcode_byte(OpCode::Return)).4,
            code_bytes(r.code()) == code_bytes(old(self).chunk.code()).push(opcode_byte(OpCode::Return)),
            r.code().len() > 0 && r.code().last().byte == opcode_byte(OpCode::Return),
            code_ok(code_bytes(r.code()), r.constants()),
            effect(code_bytes(r.code())) == old(self).net_effect(),
    {
        let mut out = Chunk::new();
        core::mem::swap(&mut out, &mut self.chunk);
        out.write_byte(Byte::new(OpCode::Return.to_byte(), self.previous.line));
        proof {
            let before = code_bytes(old(self).chunk.code());
            let pool = out.constants();
            assert(code_bytes(self.chunk.code()) =~= Seq::<u8>::empty());
            lemma_code_bytes_push(old(self).chunk.code(), out.code().last());
            assert(before.push(0u8) =~= before + seq![0u8]);
            lemma_code_ok_single(0u8, pool);
            lemma_code_ok_append(before, seq![0u8], pool);
            lemma_effect_single(0u8, 0);
            lemma_effect_append(before, seq![0u8], pool);
        }
        out
    }

    /// Parses an expression whose operators bind at least as strongly as the
    /// level `precedence`.
    fn parse_precedence(&mut self, precedence: u8) -> (r: ErrorResult<()>)
        requires
            old(self).wf(),
            1 <= precedence <= 11,
        ensures
            final(self).wf(),
            final(self).source() == old(self).source(),
            agrees(r, final(self).pstate(), sp_prec(old(self).source(), old(self).pstate(), precedence as nat)),
            extends(old(self).chunk.constants(), final(self).chunk.constants()),
            final(self).measure() <= old(self).measure(),
            r is Ok ==> final(self).measure() < old(self).measure(),
            reported_in(r, old(self).source()),
            r is Ok ==> final(self).net_effect() == old(self).net_effect() + 1,
            ({
                let next = scan(old(self).tokenizer.source_chars(), old(self).tokenizer.cursor(), old(self).tokenizer.current_line()).0;
                (next.0 != TokenType::Error && rule_of(old(self).current.ty).prefix is None) ==> r is Err
                    && r->Err_0@ == error_text(old(self).current.line as nat, "Expected expression."@)
            }),
            ({
                let next = scan(old(self).tokenizer.source_chars(), old(self).tokenizer.cursor(), old(self).tokenizer.current_line()).0;
                (next.0 != TokenType::Error && rule_of(old(self).current.ty).prefix == Some(ParseFn::Literal)
                    && level(rule_of(next.0).precedence) < precedence) ==> r is Ok && code_bytes(final(self).chunk.code())
                    == code_bytes(old(self).chunk.code()).push(
                    match old(self).current.ty {
                        TokenType::False => opcode_byte(OpCode::False),
                        TokenType::True => opcode_byte(OpCode::True),
                        _ => opcode_byte(OpCode::Nil),
                    },
                )
            }),
        decreases old(self).measure(), 0nat,
    {
        let ghost m0 = self.measure();
        let ghost first = self.current;
        let ghost next = scan(self.tokenizer.source_chars(), self.tokenizer.cursor(), self.tokenizer.current_line()).0;
        let ghost lit_case = next.0 != TokenType::Error && rule_of(first.ty).prefix == Some(ParseFn::Literal)
            && level(rule_of(next.0).precedence) < precedence;
        let ghost expected = code_bytes(self.chunk.code()).push(
            match first.ty {
                TokenType::False => opcode_byte(OpCode::False),
                TokenType::True => opcode_byte(OpCode::True),
                _ => opcode_byte(OpCode::Nil),
            },
        );
        let first_step = self.advance();
        if let Err(e) = first_step {
            return Err(e);
        }
        let prefix_rule = Self::get_parse_rule(self.previous.ty).prefix;
        let can_assign = precedence <= Precedence::Assignment.level();
        match prefix_rule {
            None => {
                return Err(error_message(self.previous.line, "Expected expression."));
            },
            Some(ParseFn::Grouping) => self.grouping()?,
            Some(ParseFn::Unary) => self.unary()?,
            Some(ParseFn::Number) => self.number()?,
            Some(ParseFn::Literal) => self.literal()?,
            Some(ParseFn::String) => self.string()?,
            Some(ParseFn::Variable) => self.variable(can_assign)?,
            // no token starts an expression with a binary rule
            Some(ParseFn::Binary) => {
                return Err(error_message(self.previous.line, "Expected expression."));
            },
        }
        loop
            invariant
                self.wf(),
                self.measure() < m0,
                m0 == old(self).measure(),
                1 <= precedence <= 11,
                self.source() == old(self).source(),
                lit_case ==> self.current.ty == next.0 && code_bytes(self.chunk.code()) == expected,
                rule_of(first.ty).prefix is Some,
                first == old(self).current,
                sp_prec(old(self).source(), old(self).pstate(), precedence as nat) == sp_infix(
                    self.source(),
                    self.pstate(),
                    precedence as nat,
                ),
                next == scan(old(self).tokenizer.source_chars(), old(self).tokenizer.cursor(), old(self).tokenizer.current_line()).0,
                lit_case == (next.0 != TokenType::Error && rule_of(first.ty).prefix == Some(ParseFn::Literal)
                    && level(rule_of(next.0).precedence) < precedence),
                extends(old(self).chunk.constants(), self.chunk.constants()),
                self.net_effect() == old(self).net_effect() + 1,
            ensures
                sp_prec(old(self).source(), old(self).pstate(), precedence as nat) == Ok::<PState, Seq<char>>(
                    self.pstate(),
                ),
            decreases self.measure(),
        {
            let rule = Self::get_parse_rule(self.current.ty);
            if precedence > rule.precedence.level() {
                assert(sp_infix(self.source(), self.pstate(), precedence as nat) == Ok::<PState, Seq<char>>(
                    self.pstate(),
                ));
                break;
            }
            self.advance()?;
            self.binary()?;
        }
        Ok(())
    }

    fn expression(&mut self) -> (r: ErrorResult<()>)
        requires
            old(self).wf(),
        ensures
            final(self).wf(),
            final(self).source() == old(self).source(),
            agrees(r, final(self).pstate(), sp_prec(old(self).source(), old(self).pstate(), 1)),
            extends(old(self).chunk.constants(), final(self).chunk.constants()),
            final(self).measure() <= old(self).measure(),
            r is Ok ==> final(self).measure() < old(self).measure(),
            (old(self).next_scan().0.0 != TokenType::Error && rule_of(old(self).current_token().0).prefix is None) ==> r is Err
                && r->Err_0@ == error_text(old(self).current_token().2, "Expected expression."@),
            reported_in(r, old(self).source()),
            r is Ok ==> final(self).net_effect() == old(self).net_effect() + 1,
    {
        self.parse_precedence(Precedence::Assignment.level())
    }

    fn number(&mut self) -> (r: ErrorResult<()>)
        requires
            old(self).wf(),
            old(self).previous.ty == TokenType::Number,
        ensures
            final(self).wf(),
            final(self).source() == old(self).source(),
            agrees(r, final(self).pstate(), sp_write_constant(old(self).pstate(), Val::Number(old(self).previous.text@))),
            extends(old(self).chunk.constants(), final(self).chunk.constants()),
            final(self).measure() == old(self).measure(),
            r is Ok ==> final(self).chunk.constants() == old(self).chunk.constants().push(
                Value::Number(old(self).previous.text),
            ),
            r is Ok ==> code_bytes(final(self).chunk.code()) == code_bytes(old(self).chunk.code()) + seq![
                opcode_byte(OpCode::Constant),
                old(self).chunk.constants().len() as u8,
            ],
            reported_in(r, old(self).source()),
            r is Ok ==> final(self).net_effect() == old(self).net_effect() + 1,
        decreases old(self).measure(), 2nat,
    {
        let text = self.previous.text.clone();
        self.write_constant(Value::Number(text))
    }

    fn string(&mut self) -> (r: ErrorResult<()>)
        requires
            old(self).wf(),
            old(self).previous.ty == TokenType::String,
        ensures
            final(self).wf(),
            final(self).source() == old(self).source(),
            agrees(r, final(self).pstate(), sp_write_constant(old(self).pstate(), Val::Str(old(self).previous.text@))),
            extends(old(self).chunk.constants(), final(self).chunk.constants()),
            final(self).measure() == old(self).measure(),
            r is Ok ==> final(self).chunk.constants() == old(self).chunk.constants().push(
                Value::String(old(self).previous.text),
            ),
            r is Ok ==> code_bytes(final(self).chunk.code()) == code_bytes(old(self).chunk.code()) + seq![
                opcode_byte(OpCode::Constant),
                old(self).chunk.constants().len() as u8,
            ],
            reported_in(r, old(self).source()),
            r is Ok ==> final(self).net_effect() == old(self).net_effect() + 1,
        decreases old(self).measure(), 2nat,
    {
        let text = self.previous.text.clone();
        self.write_constant(Value::String(text))
    }

    fn literal(&mut self) -> (r: ErrorResult<()>)
        requires
            old(self).wf(),
            rule_of(old(self).previous.ty).prefix == Some(ParseFn::Literal),
        ensures
            final(self).wf(),
            final(self).current == old(self).current,
            final(self).source() == old(self).source(),
            final(self).pstate() == sp_emit(old(self).pstate(), literal_byte(old(self).previous.ty)),
            extends(old(self).chunk.constants(), final(self).chunk.constants()),
            final(self).measure() == old(self).measure(),
            code_bytes(final(self).chunk.code()) == code_bytes(old(self).chunk.code()).push(
                match old(self).previous.ty {
                    TokenType::False => opcode_byte(OpCode::False),
                    TokenType::True => opcode_byte(OpCode::True),
                    _ => opcode_byte(OpCode::Nil),
                },
            ),
            r is Ok,
            final(self).net_effect() == old(self).net_effect() + 1,
        decreases old(self).measure(), 2nat,
    {
        match self.previous.ty {
            TokenType::False => self.write_byte(OpCode::False.to_byte()),
            TokenType::True => self.write_byte(OpCode::True.to_byte()),
            _ => self.write_byte(OpCode::Nil.to_byte()),
        }
        proof {
            lemma_code_bytes_push(old(self).chunk.code(), self.chunk.code().last());
        }
        Ok(())
    }

    fn grouping(&mut self) -> (r: ErrorResult<()>)
        requires
            old(self).wf(),
        ensures
            final(self).wf(),
            final(self).source() == old(self).source(),
            agrees(r, final(self).pstate(), sp_grouping(old(self).source(), old(self).pstate())),
            extends(old(self).chunk.constants(), final(self).chunk.constants()),
            final(self).measure() <= old(self).measure(),
            reported_in(r, old(self).source()),
            r is Ok ==> final(self).net_effect() == old(self).net_effect() + 1,
        decreases old(self).measure(), 2nat,
    {
        self.parse_precedence(Precedence::Assignment.level())?;
        self.consume(TokenType::RParen, "Expected ')' after expression.")
    }

    fn unary(&mut self) -> (r: ErrorResult<()>)
        requires
            old(self).wf(),
            rule_of(old(self).previous.ty).prefix == Some(ParseFn::Unary),
        ensures
            final(self).wf(),
            final(self).source() == old(self).source(),
            agrees(r, final(self).pstate(), sp_unary(old(self).source(), old(self).pstate())),
            extends(old(self).chunk.constants(), final(self).chunk.constants()),
            final(self).measure() <= old(self).measure(),
            r is Ok ==> code_bytes(final(self).chunk.code()).last() == (if old(self).previous.ty
                == TokenType::Minus {
                opcode_byte(OpCode::Negate)
            } else {
                opcode_byte(OpCode::Not)
            }),
            reported_in(r, old(self).source()),
            r is Ok ==> final(self).net_effect() == old(self).net_effect() + 1,
        decreases old(self).measure(), 2nat,
    {
        let op_type = self.previous.ty;
        self.parse_precedence(Precedence::Unary.level())?;
        if op_type == TokenType::Minus {
            self.write_byte(OpCode::Negate.to_byte());
        } else {
            self.write_byte(OpCode::Not.to_byte());
        }
        proof {
            let c = self.chunk.code();
            lemma_code_bytes_push(c.drop_last(), c.last());
            assert(c.drop_last().push(c.last()) =~= c);
        }
        Ok(())
    }

    /// Compiles the right operand of a binary operator, then the operator.
    fn binary(&mut self) -> (r: ErrorResult<()>)
        requires
            old(self).wf(),
            level(rule_of(old(self).previous.ty).precedence) >= 1,
        ensures
            final(self).wf(),
            final(self).source() == old(self).source(),
            agrees(r, final(self).pstate(), sp_binary(old(self).source(), old(self).pstate())),
            extends(old(self).chunk.constants(), final(self).chunk.constants()),
            final(self).measure() <= old(self).measure(),
            r is Ok ==> ends_with(code_bytes(final(self).chunk.code()), binary_code(old(self).previous.ty)),
            (old(self).next_scan().0.0 != TokenType::Error && rule_of(old(self).current_token().0).prefix is None) ==> r is Err
                && r->Err_0@ == error_text(old(self).current_token().2, "Expected expression."@),
            reported_in(r, old(self).source()),
            r is Ok ==> final(self).net_effect() == old(self).net_effect(),
        decreases old(self).measure(), 1nat,
    {
        let op_type = self.previous.ty;
        let rule = Self::get_parse_rule(op_type);
        self.parse_precedence(rule.precedence.level() + 1)?;
        let ghost before = self.chunk.code();
        match op_type {
            TokenType::Plus => self.write_byte(OpCode::Add.to_byte()),
            TokenType::Minus => self.write_byte(OpCode::Subtract.to_byte()),
            TokenType::Asterisk => self.write_byte(OpCode::Multiply.to_byte()),
            TokenType::Slash => self.write_byte(OpCode::Divide.to_byte()),
            TokenType::BangEq => self.write_bytes(OpCode::Equal.to_byte(), OpCode::Not.to_byte()),
            TokenType::EqEq => self.write_byte(OpCode::Equal.to_byte()),
            TokenType::Greater => self.write_byte(OpCode::Greater.to_byte()),
            TokenType::GreaterEq => self.write_bytes(OpCode::Less.to_byte(), OpCode::Not.to_byte()),
            TokenType::Less => self.write_byte(OpCode::Less.to_byte()),
            _ => self.write_bytes(OpCode::Greater.to_byte(), OpCode::Not.to_byte()),
        }
        proof {
            let after = self.chunk.code();
            let k = binary_code(op_type).len();
            assert(after.len() == before.len() + k);
            assert(code_bytes(after).subrange(before.len() as int, after.len() as int) =~= binary_code(op_type));
        }
        Ok(())
    }

    fn identifier_constant(&mut self, name: String) -> (r: ErrorResult<u8>)
        requires
            old(self).wf(),
        ensures
            final(self).wf(),
            final(self).source() == old(self).source(),
            match sp_constant(old(self).pstate(), Val::Str(name@)) { Ok((t, i)) => r == Ok::<u8, String>(i as u8) && final(self).pstate() == t, Err(e) => r is Err && r->Err_0@ == e },
            extends(old(self).chunk.constants(), final(self).chunk.constants()),
            final(self).measure() == old(self).measure(),
            final(self).previous == old(self).previous,
            final(self).chunk.code() == old(self).chunk.code(),
            r is Ok ==> final(self).chunk.constants() == old(self).chunk.constants().push(Value::String(name))
                && r->Ok_0 as nat == old(self).chunk.constants().len(),
            reported_in(r, old(self).source()),
    {
        self.make_constant(Value::String(name))
    }

    fn variable(&mut self, can_assign: bool) -> (r: ErrorResult<()>)
        requires
            old(self).wf(),
        ensures
            final(self).wf(),
            final(self).source() == old(self).source(),
            agrees(r, final(self).pstate(), sp_named(old(self).source(), old(self).pstate(), can_assign)),
            extends(old(self).chunk.constants(), final(self).chunk.constants()),
            final(self).measure() <= old(self).measure(),
            reported_in(r, old(self).source()),
            r is Ok ==> final(self).net_effect() == old(self).net_effect() + 1,
        decreases old(self).measure(), 2nat,
    {
        let name = self.previous.text.clone();
        self.named_variable(name, can_assign)
    }

    /// Reads or, where allowed and `=` follows, assigns a global variable.
    fn named_variable(&mut self, name: String, can_assign: bool) -> (r: ErrorResult<()>)
        requires
            old(self).wf(),
            name@ == old(self).previous.text@,
        ensures
            final(self).wf(),
            final(self).source() == old(self).source(),
            agrees(r, final(self).pstate(), sp_named(old(self).source(), old(self).pstate(), can_assign)),
            extends(old(self).chunk.constants(), final(self).chunk.constants()),
            final(self).measure() <= old(self).measure(),
            reported_in(r, old(self).source()),
            r is Ok ==> final(self).net_effect() == old(self).net_effect() + 1,
        decreases old(self).measure(), 1nat,
    {
        let arg = self.identifier_constant(name)?;
        let mut assigns = false;
        if can_assign {
            assigns = self.match_tok(TokenType::Eq)?;
        }
        if assigns {
            self.parse_precedence(Precedence::Assignment.level())?;
            self.write_bytes(OpCode::SetGlobal.to_byte(), arg);
        } else {
            self.write_bytes(OpCode::GetGlobal.to_byte(), arg);
        }
        Ok(())
    }

    /// Compiles the whole source. On success the code ends with `Return`;
    /// the first malformed construct ends compilation with a diagnostic.
    /// On a compiler fresh from `new`, the result is `compiled(source)`.
    pub fn parse(&mut self) -> (r: ErrorResult<Chunk>)
        requires
            old(self).wf(),
        ensures
            final(self).wf(),
            final(self).source() == old(self).source(),
            r is Ok ==> r->Ok_0.code().len() > 0 && r->Ok_0.code().last().byte == opcode_byte(OpCode::Return)
                && r->Ok_0.constants().len() <= 256,
            r is Ok ==> code_ok(code_bytes(r->Ok_0.code()), r->Ok_0.constants()),
            r is Ok ==> no_return(code_bytes(r->Ok_0.code()).drop_last()),
            r is Ok ==> code_ok(code_bytes(r->Ok_0.code()).drop_last(), r->Ok_0.constants()),
            old(self).pstate() == initial_state() ==> match compiled(old(self).source()) {
                Ok(t) => r is Ok && r->Ok_0.code() == t.4 && pool_views(r->Ok_0.constants()) == t.5,
                Err(e) => r is Err && r->Err_0@ == e,
            },
            match sp_parse(old(self).source(), old(self).pstate()) {
                Ok(t) => r is Ok && r->Ok_0.code() == t.4 && pool_views(r->Ok_0.constants()) == t.5,
                Err(e) => r is Err && r->Err_0@ == e,
            },
            old(self).next_scan().0.0 == TokenType::EndOfFile ==> r is Ok && code_bytes(r->Ok_0.code()) == seq![
                opcode_byte(OpCode::Return),
            ] && r->Ok_0.constants() == Seq::<Value>::empty(),
            old(self).next_scan().0.0 == TokenType::Error ==> r is Err && r->Err_0@ == error_text(
                old(self).next_scan().0.2,
                old(self).next_scan().0.1,
            ),
            reported_in(r, old(self).source()),
            r is Ok ==> effect(code_bytes(r->Ok_0.code())) == 0,
    {
        self.chunk = Chunk::new();
        proof {
            assert(pool_views(self.chunk.constants()) =~= Seq::<Val>::empty());
            assert(code_bytes(self.chunk.code()) =~= Seq::<u8>::empty());
            assert(self.net_effect() == 0);
        }
        let first = self.advance();
        if let Err(e) = first {
            return Err(e);
        }
        let ghost blank = old(self).next_scan().0.0 == TokenType::EndOfFile;
        while !self.match_tok(TokenType::EndOfFile)?
            invariant
                self.wf(),
                old(self).next_scan().0.0 != TokenType::Error,
                blank == (old(self).next_scan().0.0 == TokenType::EndOfFile),
                sp_parse(old(self).source(), old(self).pstate()) == sp_program(self.source(), self.pstate()),
                blank ==> self.current.ty == TokenType::EndOfFile && code_bytes(self.chunk.code()) == Seq::<u8>::empty()
                    && self.chunk.constants() == Seq::<Value>::empty()
                    && self.tokenizer.cursor() >= self.tokenizer.source_chars().len(),
                self.net_effect() == 0,
                self.source() == old(self).source(),
            decreases self.measure(),
        {
            self.declaration()?;
        }
        let ghost before = code_bytes(self.chunk.code());
        let out = self.end_compilation();
        proof {
            assert(code_bytes(out.code()).drop_last() =~= before);
            if blank {
                assert(code_bytes(out.code()) =~= seq![opcode_byte(OpCode::Return)]);
            }
        }
        Ok(out)
    }

    fn declaration(&mut self) -> (r: ErrorResult<()>)
        requires
            old(self).wf(),
        ensures
            final(self).wf(),
            final(self).source() == old(self).source(),
            agrees(r, final(self).pstate(), sp_declaration(old(self).source(), old(self).pstate())),
            extends(old(self).chunk.constants(), final(self).chunk.constants()),
            final(self).measure() <= old(self).measure(),
            r is Ok ==> final(self).measure() < old(self).measure(),
            reported_in(r, old(self).source()),
            r is Ok ==> final(self).net_effect() == old(self).net_effect(),
        decreases old(self).measure(), 3nat,
    {
        if self.match_tok(TokenType::Var)? {
            self.var_declaration()?;
        } else {
            self.statement()?;
        }
        Ok(())
    }

    fn var_declaration(&mut self) -> (r: ErrorResult<()>)
        requires
            old(self).wf(),
        ensures
            final(self).wf(),
            final(self).source() == old(self).source(),
            agrees(r, final(self).pstate(), sp_var_declaration(old(self).source(), old(self).pstate())),
            extends(old(self).chunk.constants(), final(self).chunk.constants()),
            final(self).measure() <= old(self).measure(),
            r is Ok ==> final(self).measure() < old(self).measure(),
            reported_in(r, old(self).source()),
            r is Ok ==> final(self).net_effect() == old(self).net_effect(),
    {
        let global = self.parse_variable("Expected variable name.")?;
        if self.match_tok(TokenType::Eq)? {
            self.expression()?;
        } else {
            self.write_byte(OpCode::Nil.to_byte());
        }
        self.consume(TokenType::Semicolon, "Expected ';' after variable declaration.")?;
        self.define_variable(global);
        Ok(())
    }

    fn parse_variable(&mut self, message: &str) -> (r: ErrorResult<u8>)
        requires
            old(self).wf(),
        ensures
            final(self).wf(),
            final(self).source() == old(self).source(),
            match sp_consume(old(self).source(), old(self).pstate(), TokenType::Ident, message@) { Err(e) => r is Err && r->Err_0@ == e, Ok(s1) => match sp_constant(s1, Val::Str(s1.3.1)) { Ok((t, i)) => r == Ok::<u8, String>(i as u8) && final(self).pstate() == t, Err(e) => r is Err && r->Err_0@ == e } },
            extends(old(self).chunk.constants(), final(self).chunk.constants()),
            final(self).measure() <= old(self).measure(),
            r is Ok ==> final(self).measure() < old(self).measure(),
            r is Ok ==> (r->Ok_0 as nat) < final(self).chunk.constants().len(),
            r is Ok ==> final(self).chunk.constants()[r->Ok_0 as int] is String,
            final(self).net_effect() == old(self).net_effect(),
            reported_in(r, old(self).source()),
    {
        self.consume(TokenType::Ident, message)?;
        let name = self.previous.text.clone();
        self.identifier_constant(name)
    }

    fn define_variable(&mut self, global: u8)
        requires
            old(self).wf(),
            (global as nat) < old(self).chunk.constants().len(),
            old(self).chunk.constants()[global as int] is String,
        ensures
            final(self).wf(),
            final(self).source() == old(self).source(),
            final(self).pstate() == sp_emit(sp_emit(old(self).pstate(), opcode_byte(OpCode::DefineGlobal)), global),
            extends(old(self).chunk.constants(), final(self).chunk.constants()),
            final(self).measure() == old(self).measure(),
            final(self).net_effect() == old(self).net_effect() - 1,
    {
        self.write_bytes(OpCode::DefineGlobal.to_byte(), global);
    }

    /// A print statement, a block, or an expression statement.
    #[verifier::rlimit(50)]
    fn statement(&mut self) -> (r: ErrorResult<()>)
        requires
            old(self).wf(),
        ensures
            final(self).wf(),
            final(self).source() == old(self).source(),
            agrees(r, final(self).pstate(), sp_statement(old(self).source(), old(self).pstate())),
            extends(old(self).chunk.constants(), final(self).chunk.constants()),
            final(self).measure() <= old(self).measure(),
            r is Ok ==> final(self).measure() < old(self).measure(),
            reported_in(r, old(self).source()),
            r is Ok ==> final(self).net_effect() == old(self).net_effect(),
        decreases old(self).measure(), 2nat,
    {
        if self.match_tok(TokenType::Print)? {
            self.print_statement()?;
        } else if self.match_tok(TokenType::LBrace)? {
            let ghost m0 = old(self).measure();
            while !self.check(TokenType::RBrace) && !self.check(TokenType::EndOfFile)
                invariant
                    self.wf(),
                    self.measure() < m0,
                    m0 == old(self).measure(),
                    self.source() == old(self).source(),
                    sp_statement(old(self).source(), old(self).pstate()) == (match sp_block(self.source(), self.pstate()) {
                        Err(e) => Err(e),
                        Ok(s2) => sp_consume(self.source(), s2, TokenType::RBrace, "Expect '(' after block."@),
                    }),
                    extends(old(self).chunk.constants(), self.chunk.constants()),
                    self.net_effect() == old(self).net_effect(),
                decreases self.measure(),
            {
                self.declaration()?;
            }
            self.consume(TokenType::RBrace, "Expect '(' after block.")?;
        } else {
            self.expression_statement()?;
        }
        Ok(())
    }

    fn expression_statement(&mut self) -> (r: ErrorResult<()>)
        requires
            old(self).wf(),
        ensures
            final(self).wf(),
            final(self).source() == old(self).source(),
            agrees(r, final(self).pstate(), sp_expression_statement(old(self).source(), old(self).pstate())),
            extends(old(self).chunk.constants(), final(self).chunk.constants()),
            final(self).measure() <= old(self).measure(),
            r is Ok ==> final(self).measure() < old(self).measure(),
            reported_in(r, old(self).source()),
            r is Ok ==> final(self).net_effect() == old(self).net_effect(),
    {
        self.expression()?;
        self.consume(TokenType::Semicolon, "Expect ';' after expression.")?;
        self.write_byte(OpCode::Pop.to_byte());
        Ok(())
    }

    /// The rest of a `print` statement: an expression, `;`, then `Print`.
    pub fn print_statement(&mut self) -> (r: ErrorResult<()>)
        requires
            old(self).wf(),
        ensures
            final(self).wf(),
            final(self).source() == old(self).source(),
            agrees(r, final(self).pstate(), sp_print_statement(old(self).source(), old(self).pstate())),
            extends(old(self).constants(), final(self).constants()),
            final(self).measure() <= old(self).measure(),
            r is Ok ==> final(self).code().last() == (Byte {
                byte: opcode_byte(OpCode::Print),
                line: final(self).previous_line(),
            }),
            (old(self).next_scan().0.0 != TokenType::Error && rule_of(old(self).current_token().0).prefix is None) ==> r is Err
                && r->Err_0@ == error_text(old(self).current_token().2, "Expected expression."@),
            reported_in(r, old(self).source()),
            r is Ok ==> final(self).net_effect() == old(self).net_effect(),
    {
        self.expression()?;
        self.consume(TokenType::Semicolon, "Expected ';' after value.")?;
        self.write_byte(OpCode::Print.to_byte());
        Ok(())
    }
}

} // verus!
