use tundraix::chunk::{Byte, Chunk, OpCode, ValueArray};
use tundraix::compiler::{error_message, ParseFn, ParseRule, Precedence};
use tundraix::text::decimal_string;
use tundraix::tokenizer::{Token, TokenType, Tokenizer};
use tundraix::value::Value;
use tundraix::vm::{values_equal, VM};

fn all_tokens(src: &str) -> Vec<(TokenType, String, usize)> {
    let mut t = Tokenizer::new(src);
    let mut out = Vec::new();
    loop {
        let tok = t.scan_token();
        let end = tok.ty == TokenType::EndOfFile;
        out.push((tok.ty, tok.text, tok.line));
        if end {
            return out;
        }
    }
}

fn tok(ty: TokenType, text: &str, line: usize) -> (TokenType, String, usize) {
    (ty, text.to_string(), line)
}

#[test]
fn scans_a_declaration() {
    assert_eq!(
        all_tokens("var ab_1 = 12.5;"),
        vec![
            tok(TokenType::Var, "", 1),
            tok(TokenType::Ident, "ab_1", 1),
            tok(TokenType::Eq, "", 1),
            tok(TokenType::Number, "12.5", 1),
            tok(TokenType::Semicolon, "", 1),
            tok(TokenType::EndOfFile, "", 1),
        ]
    );
}

#[test]
fn scans_every_keyword() {
    let words = [
        ("and", TokenType::And),
        ("class", TokenType::Class),
        ("else", TokenType::Else),
        ("false", TokenType::False),
        ("for", TokenType::For),
        ("fun", TokenType::Fun),
        ("if", TokenType::If),
        ("nil", TokenType::Nil),
        ("or", TokenType::Or),
        ("print", TokenType::Print),
        ("return", TokenType::Return),
        ("super", TokenType::Super),
        ("this", TokenType::This),
        ("true", TokenType::True),
        ("var", TokenType::Var),
        ("while", TokenType::While),
        ("variable", TokenType::Ident),
        ("_x", TokenType::Ident),
    ];
    for (w, ty) in words {
        let text = if ty == TokenType::Ident { w } else { "" };
        assert_eq!(all_tokens(w)[0], tok(ty, text, 1));
    }
    let kinds: Vec<(TokenType, String)> = all_tokens("print printx _a1 nil Var").into_iter().map(|t| (t.0, t.1)).collect();
    assert_eq!(
        kinds,
        vec![
            (TokenType::Print, String::new()),
            (TokenType::Ident, "printx".to_string()),
            (TokenType::Ident, "_a1".to_string()),
            (TokenType::Nil, String::new()),
            (TokenType::Ident, "Var".to_string()),
            (TokenType::EndOfFile, String::new()),
        ]
    );
}

#[test]
fn scans_operators() {
    let kinds: Vec<TokenType> = all_tokens("( ) { } + - * / ; ! != = == < <= > >=").into_iter().map(|t| t.0).collect();
    assert_eq!(
        kinds,
        vec![
            TokenType::LParen,
            TokenType::RParen,
            TokenType::LBrace,
            TokenType::RBrace,
            TokenType::Plus,
            TokenType::Minus,
            TokenType::Asterisk,
            TokenType::Slash,
            TokenType::Semicolon,
            TokenType::Bang,
            TokenType::BangEq,
            TokenType::Eq,
            TokenType::EqEq,
            TokenType::Less,
            TokenType::LessEq,
            TokenType::Greater,
            TokenType::GreaterEq,
            TokenType::EndOfFile,
        ]
    );
}

#[test]
fn number_without_fraction_digits_stops_before_the_dot() {
    assert_eq!(
        all_tokens("1."),
        vec![tok(TokenType::Number, "1", 1), tok(TokenType::Dot, "", 1), tok(TokenType::EndOfFile, "", 1)]
    );
}

#[test]
fn comma_and_dot_are_tokens() {
    assert_eq!(
        all_tokens(", ."),
        vec![tok(TokenType::Coma, "", 1), tok(TokenType::Dot, "", 1), tok(TokenType::EndOfFile, "", 1)]
    );
}

#[test]
fn strings_track_lines() {
    assert_eq!(
        all_tokens("\"a\nb\" x"),
        vec![
            tok(TokenType::String, "a\nb", 2),
            tok(TokenType::Ident, "x", 2),
            tok(TokenType::EndOfFile, "", 2),
        ]
    );
    assert_eq!(
        all_tokens("\"a\n"),
        vec![tok(TokenType::Error, "Unterminated string", 2), tok(TokenType::EndOfFile, "", 2)]
    );
}

#[test]
fn comments_and_whitespace_are_skipped() {
    assert_eq!(
        all_tokens("// one\n\t x // two\r\n/"),
        vec![tok(TokenType::Ident, "x", 2), tok(TokenType::Slash, "", 3), tok(TokenType::EndOfFile, "", 3)]
    );
}

#[test]
fn end_of_file_repeats() {
    let mut t = Tokenizer::new("  ");
    for _ in 0..3 {
        let k = t.scan_token();
        assert_eq!(k.ty, TokenType::EndOfFile);
        assert_eq!(k.line, 1);
    }
    assert_eq!(all_tokens(""), vec![tok(TokenType::EndOfFile, "", 1)]);
}

#[test]
fn unexpected_character() {
    assert_eq!(all_tokens("#")[0], tok(TokenType::Error, "Unexpected character '#'", 1));
    assert_eq!(all_tokens("a$b")[1], tok(TokenType::Error, "Unexpected character '$'", 1));
}

#[test]
fn tokenizing_twice_gives_the_same_tokens() {
    let src = "var a = \"x\ny\"; // c\nprint a + 1.25 >= 3;";
    assert_eq!(all_tokens(src), all_tokens(src));
}

#[test]
fn token_constructors() {
    let t = Token::new(TokenType::Number, "3".to_string(), 7);
    assert_eq!((t.ty, t.text.as_str(), t.line), (TokenType::Number, "3", 7));
    let e = Token::new_no_text(TokenType::Semicolon, 2);
    assert_eq!((e.ty, e.text.as_str(), e.line), (TokenType::Semicolon, "", 2));
}

#[test]
fn decimal_rendering() {
    assert_eq!(decimal_string(0), "0");
    assert_eq!(decimal_string(7), "7");
    assert_eq!(decimal_string(1234), "1234");
    assert_eq!(error_message(42, "Oops"), "[line 42] Error: Oops");
}

#[test]
fn opcode_bytes_round_trip() {
    for b in 0u8..=255 {
        match OpCode::from_byte(b) {
            Some(op) => assert_eq!(op.to_byte(), b),
            None => assert!(b > 18),
        }
    }
    assert_eq!(OpCode::SetGlobal.to_byte(), 18);
    assert_eq!(OpCode::from_byte(6), Some(OpCode::Add));
}

#[test]
fn chunk_appends_code_and_constants() {
    let mut c = Chunk::new();
    c.write_byte(Byte::new(1, 3));
    assert_eq!(c.write_value(Value::Nil), 0);
    assert_eq!(c.write_value(Value::Bool(true)), 1);
    assert_eq!(c.get_byte(0), Byte::new(1, 3));
    assert_eq!(c.get_value(1), Value::Bool(true));
    assert_eq!((c.code_len(), c.constant_count()), (1, 2));
    let mut a = ValueArray::new();
    assert_eq!(a.write_value(Value::String("s".to_string())), 0);
    assert_eq!(a.get_value(0), Value::String("s".to_string()));
}

#[test]
fn value_accessors() {
    let mut n = Value::Number("2.5".to_string());
    assert!(n.is_number() && !n.is_string() && !n.is_bool() && !n.is_nil());
    assert_eq!(n.as_number(), "2.5");
    n = Value::String("hi".to_string());
    assert_eq!(n.as_string(), "hi");
    assert!(Value::Bool(false).as_bool() == false);
    assert_eq!(Value::Nil.to_text(), "nil");
    assert_eq!(Value::Bool(true).to_text(), "true");
    assert!(Value::Nil.is_falsey() && Value::Bool(false).is_falsey());
    assert!(!Value::Number("0".to_string()).is_falsey());
    assert!(values_equal(&Value::Nil, &Value::Nil));
    assert!(!values_equal(&Value::Nil, &Value::Bool(false)));
    assert!(!values_equal(&Value::String("1".to_string()), &Value::Number("1".to_string())));
}

#[test]
fn vm_stack_operations() {
    let mut vm = VM::new();
    vm.push_value(Value::Bool(true));
    vm.push_value(Value::Nil);
    assert_eq!(vm.stack_len(), 2);
    assert_eq!(vm.pop_value(), Value::Nil);
    assert_eq!(vm.pop_value(), Value::Bool(true));
}

#[test]
fn parse_rule_new_keeps_its_fields() {
    let r = ParseRule::new(Some(ParseFn::Unary), None, Precedence::Term);
    assert_eq!(r.prefix, Some(ParseFn::Unary));
    assert_eq!(r.infix, None);
    assert_eq!(r.precedence.level(), 6);
}

#[test]
fn scan_all_gives_the_whole_stream_twice_alike() {
    let src = "var a = 1;\nprint a;";
    let first: Vec<(TokenType, String, usize)> = Tokenizer::new(src).scan_all().into_iter().map(|t| (t.ty, t.text, t.line)).collect();
    let second: Vec<(TokenType, String, usize)> = Tokenizer::new(src).scan_all().into_iter().map(|t| (t.ty, t.text, t.line)).collect();
    assert_eq!(first, second);
    assert_eq!(first, all_tokens(src));
    assert_eq!(first.len(), 9);
}
