use tundraix::chunk::{Byte, Chunk};
use tundraix::compiler::Parser;
use tundraix::value::Value;
use tundraix::vm::{NumberOp, Step, VM};

fn num(t: &str) -> f64 {
    t.parse::<f64>().unwrap()
}

fn host_binary(op: NumberOp, a: &str, b: &str) -> Value {
    let (x, y) = (num(a), num(b));
    match op {
        NumberOp::Add => Value::Number(format!("{}", x + y)),
        NumberOp::Subtract => Value::Number(format!("{}", x - y)),
        NumberOp::Multiply => Value::Number(format!("{}", x * y)),
        NumberOp::Divide => Value::Number(format!("{}", x / y)),
        NumberOp::Greater => Value::Bool(x > y),
        NumberOp::Less => Value::Bool(x < y),
        NumberOp::Equal => Value::Bool(x == y),
    }
}

/// Compiles and runs `src`, doing the number work as a host does; returns
/// what was printed and how the run ended.
fn run(src: &str) -> (String, Result<(), String>) {
    let mut out = String::new();
    let mut parser = Parser::new(src);
    let chunk = match parser.parse() {
        Ok(c) => c,
        Err(e) => return (out, Err(e)),
    };
    let mut vm = VM::new();
    let mut step = vm.interpret(chunk);
    loop {
        match step {
            Err(e) => return (out, Err(e)),
            Ok(Step::Halt) => return (out, Ok(())),
            Ok(Step::Output(t)) => out.push_str(&t),
            Ok(Step::PrintNumber(t)) => out.push_str(&format!("{}\n", num(&t))),
            Ok(Step::Negate(t)) => vm.push_value(Value::Number(format!("{}", -num(&t)))),
            Ok(Step::Binary(op, a, b)) => vm.push_value(host_binary(op, &a, &b)),
        }
        step = vm.run();
    }
}

#[test]
fn prints_numeric_literals_canonically() {
    assert_eq!(run("print 10;"), ("10\n".to_string(), Ok(())));
    assert_eq!(run("print 1.5;"), ("1.5\n".to_string(), Ok(())));
    assert_eq!(run("print 1.50;"), ("1.5\n".to_string(), Ok(())));
    assert_eq!(run("print 007;"), ("7\n".to_string(), Ok(())));
    assert_eq!(run("print 0;"), ("0\n".to_string(), Ok(())));
}

#[test]
fn multiplication_binds_tighter_than_addition() {
    assert_eq!(run("var a = 3; var b = 4 + 2 * a; print b;"), ("10\n".to_string(), Ok(())));
    assert_eq!(run("print (4 + 2) * 3;"), ("18\n".to_string(), Ok(())));
    assert_eq!(run("print 10 - 4 - 3;"), ("3\n".to_string(), Ok(())));
}

#[test]
fn reassignment_and_assignment_value() {
    assert_eq!(run("var x = 1; x = 2; print x;"), ("2\n".to_string(), Ok(())));
    assert_eq!(run("var x = 1; print x = 5;"), ("5\n".to_string(), Ok(())));
    assert_eq!(run("var x; print x;"), ("nil\n".to_string(), Ok(())));
}

#[test]
fn string_concatenation() {
    assert_eq!(run("print \"a\" + \"b\";"), ("ab\n".to_string(), Ok(())));
    assert_eq!(
        run("print \"a\" + 1;"),
        (String::new(), Err("[line 1] Error: Invalid operands.".to_string()))
    );
}

#[test]
fn undefined_variable_access() {
    assert_eq!(run("print y;"), (String::new(), Err("[line 1] Error: Undefined variable y".to_string())));
    assert_eq!(run("y = 1;"), (String::new(), Err("[line 1] Error: Undefined variable y".to_string())));
}

#[test]
fn falsiness() {
    assert_eq!(run("print !nil;"), ("true\n".to_string(), Ok(())));
    assert_eq!(run("print !0;"), ("false\n".to_string(), Ok(())));
    assert_eq!(run("print !false;"), ("true\n".to_string(), Ok(())));
    assert_eq!(run("print !\"\";"), ("false\n".to_string(), Ok(())));
}

#[test]
fn equality_is_type_strict() {
    assert_eq!(run("print 1 == \"1\";"), ("false\n".to_string(), Ok(())));
    assert_eq!(run("print 1 == 1;"), ("true\n".to_string(), Ok(())));
    assert_eq!(run("print nil == nil;"), ("true\n".to_string(), Ok(())));
    assert_eq!(run("print \"a\" != \"a\";"), ("false\n".to_string(), Ok(())));
    assert_eq!(run("print true == false;"), ("false\n".to_string(), Ok(())));
}

#[test]
fn comparisons() {
    assert_eq!(run("print 1 < 2;"), ("true\n".to_string(), Ok(())));
    assert_eq!(run("print 2 <= 2;"), ("true\n".to_string(), Ok(())));
    assert_eq!(run("print 1 > 2;"), ("false\n".to_string(), Ok(())));
    assert_eq!(run("print 3 >= 4;"), ("false\n".to_string(), Ok(())));
}

#[test]
fn division_by_zero_is_not_an_error() {
    assert_eq!(run("print 1 / 0;"), ("inf\n".to_string(), Ok(())));
    assert_eq!(run("print -(2 - 5);"), ("3\n".to_string(), Ok(())));
}

#[test]
fn blocks_do_not_scope() {
    assert_eq!(run("{ var a = 1; } print a;"), ("1\n".to_string(), Ok(())));
}

#[test]
fn runtime_type_errors() {
    assert_eq!(
        run("print -\"a\";"),
        (String::new(), Err("[line 1] Error: Operand(s) must be a number.".to_string()))
    );
    assert_eq!(
        run("print 1 - nil;"),
        (String::new(), Err("[line 1] Error: Operands must be numbers.".to_string()))
    );
    assert_eq!(
        run("print true < 1;"),
        (String::new(), Err("[line 1] Error: Operands must be numbers.".to_string()))
    );
}

#[test]
fn output_before_an_error_is_kept() {
    assert_eq!(
        run("print 1;\nprint y;"),
        ("1\n".to_string(), Err("[line 2] Error: Undefined variable y".to_string()))
    );
}

#[test]
fn errors_report_their_line() {
    assert_eq!(
        run("var a = 1;\n\nprint a + \"x\";"),
        (String::new(), Err("[line 3] Error: Invalid operands.".to_string()))
    );
    assert_eq!(
        run("{\n  var a = 1;\n  print a\n}"),
        (String::new(), Err("[line 4] Error: Expected ';' after value.".to_string()))
    );
    assert_eq!(
        run("var s = \"one\ntwo\";\nprint -s;"),
        (String::new(), Err("[line 3] Error: Operand(s) must be a number.".to_string()))
    );
    assert_eq!(
        run("print 1;\n// note\nprint @;"),
        (String::new(), Err("[line 3] Error: Unexpected character '@'".to_string()))
    );
}

#[test]
fn compile_errors() {
    assert_eq!(run("print ;"), (String::new(), Err("[line 1] Error: Expected expression.".to_string())));
    assert_eq!(run("var 1 = 2;"), (String::new(), Err("[line 1] Error: Expected variable name.".to_string())));
    assert_eq!(
        run("var a = 1"),
        (String::new(), Err("[line 1] Error: Expected ';' after variable declaration.".to_string()))
    );
    assert_eq!(
        run("print (1 + 2;"),
        (String::new(), Err("[line 1] Error: Expected ')' after expression.".to_string()))
    );
    assert_eq!(run("{ print 1;"), (String::new(), Err("[line 1] Error: Expect '(' after block.".to_string())));
    assert_eq!(run("1 + 2"), (String::new(), Err("[line 1] Error: Expect ';' after expression.".to_string())));
    assert_eq!(run("\"open"), (String::new(), Err("[line 1] Error: Unterminated string".to_string())));
    assert_eq!(run("var a; a + 1 = 2;"), (String::new(), Err("[line 1] Error: Expect ';' after expression.".to_string())));
}

#[test]
fn constant_pool_holds_at_most_256() {
    let mut fits = String::new();
    for i in 0..256 {
        fits.push_str(&format!("{};", i));
    }
    assert!(run(&fits).1.is_ok());
    let over = format!("{}256;", fits);
    assert_eq!(run(&over), (String::new(), Err("[line 1] Error: Too many constants in one chunk.".to_string())));
}

#[test]
fn compiling_twice_gives_the_same_chunk() {
    let src = "var a = 1; { print a + 2 * 3; a = \"s\"; }";
    let first = Parser::new(src).parse().unwrap();
    let second = Parser::new(src).parse().unwrap();
    assert_eq!(first.code_len(), second.code_len());
    for i in 0..first.code_len() {
        assert_eq!(first.get_byte(i), second.get_byte(i));
    }
    assert_eq!(first.constant_count(), second.constant_count());
    for i in 0..first.constant_count() {
        assert_eq!(first.get_value(i as u8), second.get_value(i as u8));
    }
}

#[test]
fn compiled_code_of_a_print_statement() {
    let chunk = Parser::new("print 1 +\n 2 >= 3;").parse().unwrap();
    let bytes: Vec<(u8, usize)> = (0..chunk.code_len()).map(|i| (chunk.get_byte(i).byte, chunk.get_byte(i).line)).collect();
    assert_eq!(
        bytes,
        vec![(1, 1), (0, 1), (1, 2), (1, 2), (6, 2), (1, 2), (2, 2), (13, 2), (10, 2), (14, 2), (0, 2)]
    );
    assert_eq!(chunk.get_value(2), Value::Number("3".to_string()));
}

#[test]
fn compiled_code_of_globals() {
    let chunk = Parser::new("var a; a = true;").parse().unwrap();
    let bytes: Vec<u8> = (0..chunk.code_len()).map(|i| chunk.get_byte(i).byte).collect();
    assert_eq!(bytes, vec![2, 16, 0, 3, 18, 1, 15, 0]);
    assert_eq!(chunk.get_value(0), Value::String("a".to_string()));
    assert_eq!(chunk.get_value(1), Value::String("a".to_string()));
}

#[test]
fn machine_steps_one_instruction_at_a_time() {
    let mut chunk = Chunk::new();
    for b in [2u8, 10, 14, 0] {
        chunk.write_byte(Byte::new(b, 5));
    }
    let mut vm = VM::new();
    assert!(matches!(vm.interpret(chunk), Ok(Step::Output(ref t)) if t == "true\n"));
    assert!(matches!(vm.step(), Ok(Some(Step::Halt))));
    assert!(vm.step().is_err());
}

#[test]
fn machine_rejects_malformed_code() {
    let mut chunk = Chunk::new();
    chunk.write_byte(Byte::new(99, 4));
    let mut vm = VM::new();
    assert_eq!(vm.interpret(chunk).err(), Some("[line 4] Error: Unknown instruction.".to_string()));
    let mut chunk = Chunk::new();
    chunk.write_byte(Byte::new(15, 2));
    assert_eq!(vm.interpret(chunk).err(), Some("[line 2] Error: Stack underflow.".to_string()));
}

#[test]
fn globals_do_not_survive_a_second_run() {
    let mut vm = VM::new();
    let first = Parser::new("var x = 1;").parse().unwrap();
    assert!(matches!(vm.interpret(first), Ok(Step::Halt)));
    let second = Parser::new("print x;").parse().unwrap();
    assert_eq!(vm.interpret(second).err(), Some("[line 1] Error: Undefined variable x".to_string()));
}

#[test]
fn zero_over_zero_is_not_an_error() {
    assert_eq!(run("print 0 / 0;"), ("NaN\n".to_string(), Ok(())));
}

#[test]
fn keywords_compile_without_text() {
    assert_eq!(run("print true != false;"), ("true\n".to_string(), Ok(())));
    assert_eq!(run("print nil;"), ("nil\n".to_string(), Ok(())));
}

fn code_of(src: &str) -> Vec<(u8, usize)> {
    let chunk = Parser::new(src).parse().unwrap();
    (0..chunk.code_len()).map(|i| (chunk.get_byte(i).byte, chunk.get_byte(i).line)).collect()
}

#[test]
fn exact_code_of_small_programs() {
    assert_eq!(
        code_of("var a = 3;\nprint a;"),
        vec![(1, 1), (1, 1), (16, 1), (0, 1), (17, 2), (2, 2), (14, 2), (0, 2)]
    );
    let bytes = |src: &str| code_of(src).into_iter().map(|b| b.0).collect::<Vec<u8>>();
    assert_eq!(bytes("print -(1 + 2) * 3;"), vec![1, 0, 1, 1, 6, 5, 1, 2, 8, 14, 0]);
    assert_eq!(bytes("print 1 - 2 - 3;"), vec![1, 0, 1, 1, 7, 1, 2, 7, 14, 0]);
    assert_eq!(bytes("var x;"), vec![2, 16, 0, 0]);
    assert_eq!(bytes(""), vec![0]);
}
