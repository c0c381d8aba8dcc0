use pratt_vm::compiler::op_code::{Number, Value};
use pratt_vm::compiler::CompilerError;
use pratt_vm::interpreter::{Interpreter, InterpreterError, Progress, Request, RuntimeError};
use pratt_vm::lexer::{DelimToken, OpToken, TokenClass};
use pratt_vm::parser::ast::ParserError;

fn number(number: &Number) -> f64 {
    match number {
        Number::Literal(numeral) => numeral.parse().unwrap(),
        Number::Computed(word) => f64::from_bits(*word),
    }
}

fn answer(request: &Request) -> u64 {
    let result = match request {
        Request::Negate { operand } => -number(operand),
        Request::Add { left, right } => number(left) + number(right),
        Request::Subtract { left, right } => number(left) - number(right),
        Request::Multiply { left, right } => number(left) * number(right),
        Request::Divide { left, right } => number(left) / number(right),
    };
    result.to_bits()
}

fn evaluate(vm: &mut Interpreter, text: &str) -> Result<String, InterpreterError> {
    let mut progress = vm.interpret(text.to_string())?;
    loop {
        match progress {
            Progress::Awaiting(request) => progress = vm.resume(answer(&request))?,
            Progress::Finished(Some(Value::Number(result))) => {
                return Ok(number(&result).to_string());
            }
            Progress::Finished(Some(Value::String(name))) => return Ok(name),
            Progress::Finished(None) => return Ok(String::new()),
        }
    }
}

#[test]
fn star_binds_tighter_than_plus() {
    let mut vm = Interpreter::new();
    assert_eq!(evaluate(&mut vm, "1 + 2 * 3;"), Ok("7".to_string()));
}

#[test]
fn binding_then_use() {
    let mut vm = Interpreter::new();
    assert_eq!(evaluate(&mut vm, "let x = 5; x + 1;"), Ok("6".to_string()));
    assert_eq!(
        vm.variable("x"),
        Some(Value::Number(Number::Literal("5".to_string())))
    );
}

#[test]
fn negated_parenthesis() {
    let mut vm = Interpreter::new();
    assert_eq!(evaluate(&mut vm, "-(3 - 1);"), Ok("-2".to_string()));
}

#[test]
fn unclosed_parenthesis() {
    let mut vm = Interpreter::new();
    match evaluate(&mut vm, "(1 + 2;") {
        Err(InterpreterError::Compiler(CompilerError::Parser(
            ParserError::UnclosedExpression { token },
        ))) => {
            assert_eq!(token.token_class, TokenClass::Op(OpToken::LeftParen));
            assert_eq!(token.lexeme, "(");
            assert_eq!((token.meta.row, token.meta.col), (0, 0));
        }
        other => panic!("{:?}", other),
    }
}

#[test]
fn read_of_unbound_variable() {
    let mut vm = Interpreter::new();
    assert_eq!(
        evaluate(&mut vm, "y;"),
        Err(InterpreterError::Runtime(RuntimeError::UninitialisedVariable))
    );
}

#[test]
fn missing_right_operand() {
    let mut vm = Interpreter::new();
    match evaluate(&mut vm, "1 +;") {
        Err(InterpreterError::Compiler(CompilerError::Parser(ParserError::UnexpectedToken {
            token,
            expected,
        }))) => {
            assert_eq!(token.token_class, TokenClass::Delim(DelimToken::Semicolon));
            assert_eq!((token.meta.row, token.meta.col), (0, 3));
            assert_eq!(expected, None);
        }
        other => panic!("{:?}", other),
    }
}

#[test]
fn minus_takes_a_single_operand_on_its_right() {
    let mut vm = Interpreter::new();
    assert_eq!(evaluate(&mut vm, "1 - 2 * 3"), Ok("-3".to_string()));
}

#[test]
fn star_goes_into_the_right_operand_of_slash() {
    let mut vm = Interpreter::new();
    assert_eq!(evaluate(&mut vm, "8 / 2 * 2"), Ok("2".to_string()));
}

#[test]
fn slash_chains_to_the_right() {
    let mut vm = Interpreter::new();
    assert_eq!(evaluate(&mut vm, "1 / 2 / 4"), Ok("2".to_string()));
}

#[test]
fn minus_chains_to_the_left_in_value() {
    let mut vm = Interpreter::new();
    assert_eq!(evaluate(&mut vm, "10 - 4 - 3"), Ok("3".to_string()));
}

#[test]
fn subtraction_does_not_commute() {
    let mut vm = Interpreter::new();
    assert_eq!(evaluate(&mut vm, "3 - 1"), Ok("2".to_string()));
    assert_eq!(evaluate(&mut vm, "1 - 3"), Ok("-2".to_string()));
}

#[test]
fn division_does_not_commute() {
    let mut vm = Interpreter::new();
    assert_eq!(evaluate(&mut vm, "8 / 2"), Ok("4".to_string()));
    assert_eq!(evaluate(&mut vm, "2 / 8"), Ok("0.25".to_string()));
}

#[test]
fn numerals_with_a_fraction() {
    let mut vm = Interpreter::new();
    assert_eq!(evaluate(&mut vm, "0.5 + 0.25"), Ok("0.75".to_string()));
    assert_eq!(evaluate(&mut vm, "1.50"), Ok("1.5".to_string()));
    assert_eq!(evaluate(&mut vm, "2."), Ok("2".to_string()));
}

#[test]
fn division_by_zero_is_no_error() {
    let mut vm = Interpreter::new();
    assert_eq!(evaluate(&mut vm, "1 / 0"), Ok("inf".to_string()));
    assert_eq!(evaluate(&mut vm, "-1 / 0"), Ok("-inf".to_string()));
    assert_eq!(evaluate(&mut vm, "0 / 0"), Ok("NaN".to_string()));
}

#[test]
fn an_assignment_shows_nothing() {
    let mut vm = Interpreter::new();
    assert_eq!(evaluate(&mut vm, "let x = 2 * 21;"), Ok("".to_string()));
    assert_eq!(evaluate(&mut vm, "x"), Ok("42".to_string()));
}

#[test]
fn variables_last_over_submissions() {
    let mut vm = Interpreter::new();
    assert_eq!(evaluate(&mut vm, "let x = 5;"), Ok("".to_string()));
    assert_eq!(evaluate(&mut vm, "x + 1;"), Ok("6".to_string()));
    assert_eq!(evaluate(&mut vm, "let x = x * x ;"), Ok("".to_string()));
    assert_eq!(evaluate(&mut vm, "x"), Ok("25".to_string()));
    vm.reset();
    assert_eq!(
        evaluate(&mut vm, "x"),
        Err(InterpreterError::Runtime(RuntimeError::UninitialisedVariable))
    );
}

#[test]
fn two_values_are_one_too_many() {
    let mut vm = Interpreter::new();
    assert_eq!(
        evaluate(&mut vm, "1 + 1; 2 + 2;"),
        Err(InterpreterError::Runtime(RuntimeError::IncompleteExpression))
    );
}

#[test]
fn an_empty_submission_is_an_error() {
    let mut vm = Interpreter::new();
    assert!(matches!(
        evaluate(&mut vm, ""),
        Err(InterpreterError::Compiler(CompilerError::Parser(ParserError::UnhandledToken { .. })))
    ));
}
