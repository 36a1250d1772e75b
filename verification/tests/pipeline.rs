//! End-to-end tests: compiling then running sources through the virtual
//! machine.

use toylox::bytecode::compiler::{DiagKind, Parser};
use toylox::bytecode::value::{Rational, Value};
use toylox::bytecode::vm::{InterpretResult, VM};

fn eval(source: &str) -> (InterpretResult, Option<Value>) {
    let mut vm = VM::new();
    let res = vm.interpret(source.to_string());
    (res, vm.result())
}

fn expect_number(source: &str, num: i64, den: i64) {
    let (res, value) = eval(source);
    assert_eq!(res, InterpretResult::Okay, "source: {source}");
    match value {
        Some(Value::Number(r)) => {
            assert_eq!((r.num(), r.den()), (num, den), "source: {source}");
        }
        other => panic!("expected a number from {source}, got {other:?}"),
    }
}

#[test]
fn precedence_mul_before_add() {
    expect_number("1 + 2 * 3", 7, 1);
}

#[test]
fn grouping_overrides_precedence() {
    expect_number("(1 + 2) * 3", 9, 1);
}

#[test]
fn unary_minus() {
    expect_number("-5", -5, 1);
}

#[test]
fn unary_binds_tighter_than_binary() {
    expect_number("-4 * 3", -12, 1);
    expect_number("-4 + 3", -1, 1);
}

#[test]
fn double_negation() {
    expect_number("--5", 5, 1);
}

#[test]
fn left_associative_subtraction() {
    expect_number("10 - 4 - 3", 3, 1);
}

#[test]
fn division_is_exact() {
    expect_number("6 / 2", 3, 1);
    expect_number("1 / 3", 1, 3);
    expect_number("1 / 3 * 3", 1, 1);
}

#[test]
fn decimal_literals() {
    expect_number("3.14", 157, 50);
    expect_number("0.5 + 0.25", 3, 4);
}

#[test]
fn whitespace_and_comments_are_skipped() {
    expect_number("1 + // one more\n 2", 3, 1);
    expect_number("\t 7 \r\n", 7, 1);
}

#[test]
fn division_by_zero_is_a_runtime_error() {
    let (res, value) = eval("1 / 0");
    assert_eq!(res, InterpretResult::RuntimeError);
    assert!(value.is_none());
}

#[test]
fn overflowing_addition_is_a_runtime_error() {
    let (res, _) = eval("9223372036854775807 + 1");
    assert_eq!(res, InterpretResult::RuntimeError);
}

#[test]
fn unterminated_string_is_a_compiler_error() {
    let (res, value) = eval("\"abc");
    assert_eq!(res, InterpretResult::CompilerError);
    assert!(value.is_none());
}

#[test]
fn unexpected_character_is_a_compiler_error() {
    let (res, _) = eval("1 + @");
    assert_eq!(res, InterpretResult::CompilerError);
}

#[test]
fn empty_input_is_a_compiler_error() {
    let (res, _) = eval("");
    assert_eq!(res, InterpretResult::CompilerError);
}

#[test]
fn missing_right_paren_is_a_compiler_error() {
    let (res, _) = eval("(1 + 2");
    assert_eq!(res, InterpretResult::CompilerError);
}

#[test]
fn trailing_tokens_are_a_compiler_error() {
    let (res, _) = eval("1 2");
    assert_eq!(res, InterpretResult::CompilerError);
}

#[test]
fn number_literal_out_of_range_is_a_compiler_error() {
    let (res, _) = eval("999999999999999999999999999999999999999");
    assert_eq!(res, InterpretResult::CompilerError);
    let mut parser = Parser::new();
    let ok = parser.compile("999999999999999999999999999999999999999".to_string());
    assert!(!ok);
    assert!(parser
        .diagnostics()
        .iter()
        .any(|d| d.kind == DiagKind::NumberOutOfRange));
}

#[test]
fn too_many_constants_in_one_chunk() {
    // 256 distinct numeric literals: the 256th addition to the pool is the
    // compile error; 255 are still fine.
    let mut big = String::new();
    for i in 0..256 {
        if i > 0 {
            big.push('+');
        }
        big.push_str(&format!("{i}"));
    }
    let (res, _) = eval(&big);
    assert_eq!(res, InterpretResult::CompilerError);
    let mut parser = Parser::new();
    assert!(!parser.compile(big));
    assert!(parser
        .diagnostics()
        .iter()
        .any(|d| d.kind == DiagKind::TooManyConstants));
    assert_eq!(
        DiagKind::TooManyConstants.message(),
        "Too many constants in one chunk."
    );

    let mut ok_source = String::new();
    for i in 0..255 {
        if i > 0 {
            ok_source.push('+');
        }
        ok_source.push_str(&format!("{i}"));
    }
    expect_number(&ok_source, (0..255i64).sum(), 1);
}

#[test]
fn sequential_interpretations_are_independent() {
    let mut vm = VM::new();
    let first = vm.interpret("1 + 2".to_string());
    assert_eq!(first, InterpretResult::Okay);
    match vm.result() {
        Some(Value::Number(r)) => assert_eq!((r.num(), r.den()), (3, 1)),
        other => panic!("unexpected result {other:?}"),
    }
    // The second evaluation sees none of the first one's operand stack.
    let second = vm.interpret("4".to_string());
    assert_eq!(second, InterpretResult::Okay);
    match vm.result() {
        Some(Value::Number(r)) => assert_eq!((r.num(), r.den()), (4, 1)),
        other => panic!("unexpected result {other:?}"),
    }
    // Even after an error, the machine recovers cleanly.
    assert_eq!(vm.interpret("1 / 0".to_string()), InterpretResult::RuntimeError);
    assert_eq!(vm.interpret("6 * 7".to_string()), InterpretResult::Okay);
    match vm.result() {
        Some(Value::Number(r)) => assert_eq!((r.num(), r.den()), (42, 1)),
        other => panic!("unexpected result {other:?}"),
    }
}

#[test]
fn compile_error_reports_expected_expression() {
    let mut parser = Parser::new();
    assert!(!parser.compile("+".to_string()));
    assert!(parser
        .diagnostics()
        .iter()
        .any(|d| d.kind == DiagKind::ExpectedExpression));
    assert_eq!(DiagKind::ExpectedExpression.message(), "Expect expression.");
}

#[test]
fn first_error_wins() {
    let mut parser = Parser::new();
    assert!(!parser.compile("@ # $".to_string()));
    assert_eq!(parser.diagnostics().len(), 1);
    assert_eq!(parser.diagnostics()[0].kind, DiagKind::UnexpectedCharacter);
}

#[test]
fn deep_right_nesting_stays_within_the_operand_stack() {
    // Each right operand keeps its left value on the stack. The deepest
    // expression that fits the constant pool (255 literals) still fits the
    // 256-slot operand stack; past the pool the compiler reports, so the
    // stack capacity is never exceeded at runtime.
    let mut source = String::new();
    for _ in 0..254 {
        source.push_str("1-(");
    }
    source.push('1');
    for _ in 0..254 {
        source.push(')');
    }
    // 1 - (1 - (... - 1)) with 255 ones: alternating partial sums end at 1.
    expect_number(&source, 1, 1);

    let mut too_deep = String::new();
    for _ in 0..300 {
        too_deep.push_str("1-(");
    }
    too_deep.push('1');
    for _ in 0..300 {
        too_deep.push(')');
    }
    let (res, _) = eval(&too_deep);
    assert_eq!(res, InterpretResult::CompilerError);
}

#[test]
fn rational_constructors_normalize() {
    let r = Rational::from_fraction(6, 4).unwrap();
    assert_eq!((r.num(), r.den()), (3, 2));
    let z = Rational::from_fraction(0, 17).unwrap();
    assert_eq!((z.num(), z.den()), (0, 1));
    let n = Rational::from_fraction(-10, 5).unwrap();
    assert_eq!((n.num(), n.den()), (-2, 1));
    assert_eq!(Rational::from_i64(7).num(), 7);
    // The one numerator with no negation in the representation.
    assert!(Rational::from_i64(i64::MIN).neg().is_none());
}
