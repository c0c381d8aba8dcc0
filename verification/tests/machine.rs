use pratt_vm::compiler::chunk::Chunk;
use pratt_vm::compiler::op_code::{Number, OpCode, Value};
use pratt_vm::compiler::CompilerError;
use pratt_vm::interpreter::{Interpreter, InterpreterError, Progress, Request, RuntimeError};
use pratt_vm::lexer::{AtomToken, DelimToken, LexerError, Token, TokenClass, TokenMeta};
use pratt_vm::parser::ast::ParserError;

fn literal(text: &str) -> Number {
    Number::Literal(text.to_string())
}

fn numeral(text: &str) -> Value {
    Value::Number(literal(text))
}

fn name(text: &str) -> Value {
    Value::String(text.to_string())
}

fn computed(word: u64) -> Value {
    Value::Number(Number::Computed(word))
}

fn chunk(code: Vec<usize>, constants: Vec<Value>) -> Chunk {
    let token = Token {
        token_class: TokenClass::Atom(AtomToken::NumericLit),
        lexeme: "0".to_string(),
        meta: TokenMeta { row: 0, col: 0 },
    };
    let tokens = code.iter().map(|_| token.clone()).collect();
    let chunk = Chunk { code, constants, tokens };
    assert!(chunk.is_well_formed());
    chunk
}

fn failed(error: RuntimeError) -> Result<Progress, InterpreterError> {
    Err(InterpreterError::Runtime(error))
}

#[test]
fn a_new_machine_has_no_variables_and_no_program() {
    let vm = Interpreter::new();
    assert_eq!(vm.variable("x"), None);
    assert!(vm.at_end());
}

#[test]
fn an_empty_text_is_an_error_and_leaves_the_machine_as_it_was() {
    let mut vm = Interpreter::new();
    assert_eq!(
        vm.interpret("let x = 2 * 3;".to_string()),
        Ok(Progress::Awaiting(Request::Multiply { left: literal("2"), right: literal("3") }))
    );
    let end = Token {
        token_class: TokenClass::Delim(DelimToken::EoF),
        lexeme: String::new(),
        meta: TokenMeta { row: 0, col: 0 },
    };
    assert_eq!(
        vm.interpret("".to_string()),
        Err(InterpreterError::Compiler(CompilerError::Parser(ParserError::UnhandledToken {
            token: end,
        })))
    );
    assert_eq!(vm.resume(6), Ok(Progress::Finished(None)));
    assert_eq!(vm.variable("x"), Some(computed(6)));
}

#[test]
fn a_chunk_without_code_has_no_result() {
    let mut vm = Interpreter::new();
    assert_eq!(vm.interpret_chunk(Chunk::new()), Ok(Progress::Finished(None)));
}

#[test]
fn the_machine_runs_a_chunk_without_its_tokens() {
    let mut vm = Interpreter::new();
    let program = Chunk {
        code: vec![0, 0, 0, 1, 2],
        constants: vec![numeral("7"), numeral("2")],
        tokens: vec![],
    };
    assert!(program.is_framed());
    assert_eq!(
        vm.interpret_chunk(program),
        Ok(Progress::Awaiting(Request::Subtract { left: literal("7"), right: literal("2") }))
    );
    assert_eq!(vm.resume(5), Ok(Progress::Finished(Some(computed(5)))));
}

#[test]
fn a_literal_is_its_own_result() {
    let mut vm = Interpreter::new();
    assert_eq!(vm.interpret("1.50".to_string()), Ok(Progress::Finished(Some(numeral("1.50")))));
    assert!(vm.at_end());
}

#[test]
fn a_sum_is_asked_of_the_host() {
    let mut vm = Interpreter::new();
    assert_eq!(
        vm.interpret("1 + 2".to_string()),
        Ok(Progress::Awaiting(Request::Add { left: literal("1"), right: literal("2") }))
    );
    assert_eq!(vm.resume(33), Ok(Progress::Finished(Some(computed(33)))));
}

#[test]
fn a_product_is_asked_of_the_host() {
    let mut vm = Interpreter::new();
    assert_eq!(
        vm.interpret("4 * 5".to_string()),
        Ok(Progress::Awaiting(Request::Multiply { left: literal("4"), right: literal("5") }))
    );
    assert_eq!(vm.resume(20), Ok(Progress::Finished(Some(computed(20)))));
}

#[test]
fn the_left_operand_of_a_difference_is_the_one_written_first() {
    let mut vm = Interpreter::new();
    assert_eq!(
        vm.interpret("3 - 1".to_string()),
        Ok(Progress::Awaiting(Request::Subtract { left: literal("3"), right: literal("1") }))
    );
}

#[test]
fn the_left_operand_of_a_quotient_is_the_one_written_first() {
    let mut vm = Interpreter::new();
    assert_eq!(
        vm.interpret("8 / 2".to_string()),
        Ok(Progress::Awaiting(Request::Divide { left: literal("8"), right: literal("2") }))
    );
}

#[test]
fn the_right_operand_is_the_top_of_the_stack() {
    let mut vm = Interpreter::new();
    let program = chunk(vec![0, 0, 0, 1, 2], vec![numeral("10"), numeral("4")]);
    assert_eq!(
        vm.interpret_chunk(program),
        Ok(Progress::Awaiting(Request::Subtract { left: literal("10"), right: literal("4") }))
    );
    let program = chunk(vec![0, 0, 0, 1, 4], vec![numeral("10"), numeral("4")]);
    assert_eq!(
        vm.interpret_chunk(program),
        Ok(Progress::Awaiting(Request::Divide { left: literal("10"), right: literal("4") }))
    );
}

#[test]
fn a_negation_is_asked_of_the_host() {
    let mut vm = Interpreter::new();
    assert_eq!(
        vm.interpret("-7".to_string()),
        Ok(Progress::Awaiting(Request::Negate { operand: literal("7") }))
    );
    assert_eq!(vm.resume(70), Ok(Progress::Finished(Some(computed(70)))));
}

#[test]
fn answers_become_operands() {
    let mut vm = Interpreter::new();
    assert_eq!(
        vm.interpret("1 + 2 * 3;".to_string()),
        Ok(Progress::Awaiting(Request::Multiply { left: literal("2"), right: literal("3") }))
    );
    assert_eq!(
        vm.resume(600),
        Ok(Progress::Awaiting(Request::Add { left: literal("1"), right: Number::Computed(600) }))
    );
    assert_eq!(vm.resume(700), Ok(Progress::Finished(Some(computed(700)))));
}

#[test]
fn an_assignment_leaves_no_value() {
    let mut vm = Interpreter::new();
    assert_eq!(vm.interpret("let x = 5;".to_string()), Ok(Progress::Finished(None)));
    assert_eq!(vm.variable("x"), Some(numeral("5")));
    assert_eq!(vm.variable("y"), None);
}

#[test]
fn variables_outlive_the_program() {
    let mut vm = Interpreter::new();
    assert_eq!(vm.interpret("let x = 5;".to_string()), Ok(Progress::Finished(None)));
    assert_eq!(vm.interpret("x".to_string()), Ok(Progress::Finished(Some(numeral("5")))));
    assert_eq!(
        vm.interpret("x + 1;".to_string()),
        Ok(Progress::Awaiting(Request::Add { left: literal("5"), right: literal("1") }))
    );
}

#[test]
fn a_read_before_any_write_fails() {
    let mut vm = Interpreter::new();
    assert_eq!(vm.interpret("y".to_string()), failed(RuntimeError::UninitialisedVariable));
    assert_eq!(vm.interpret("let x = 1;".to_string()), Ok(Progress::Finished(None)));
    assert_eq!(vm.interpret("y".to_string()), failed(RuntimeError::UninitialisedVariable));
    assert_eq!(
        vm.interpret("let z = y ;".to_string()),
        failed(RuntimeError::UninitialisedVariable)
    );
    assert_eq!(vm.variable("z"), None);
}

#[test]
fn a_write_overwrites() {
    let mut vm = Interpreter::new();
    assert_eq!(vm.interpret("let x = 1;".to_string()), Ok(Progress::Finished(None)));
    assert_eq!(vm.interpret("let x = 2;".to_string()), Ok(Progress::Finished(None)));
    assert_eq!(vm.variable("x"), Some(numeral("2")));
    assert_eq!(vm.interpret("x".to_string()), Ok(Progress::Finished(Some(numeral("2")))));
}

#[test]
fn a_computed_value_is_bound() {
    let mut vm = Interpreter::new();
    assert_eq!(
        vm.interpret("let x = 2 * 3;".to_string()),
        Ok(Progress::Awaiting(Request::Multiply { left: literal("2"), right: literal("3") }))
    );
    assert_eq!(vm.variable("x"), None);
    assert_eq!(vm.resume(6), Ok(Progress::Finished(None)));
    assert_eq!(vm.variable("x"), Some(computed(6)));
}

#[test]
fn what_was_bound_before_a_failure_stays_bound() {
    let mut vm = Interpreter::new();
    assert_eq!(
        vm.interpret("let x = 1; y ; let z = 2;".to_string()),
        failed(RuntimeError::UninitialisedVariable)
    );
    assert_eq!(vm.variable("x"), Some(numeral("1")));
    assert_eq!(vm.variable("z"), None);
}

#[test]
fn reset_forgets_every_variable() {
    let mut vm = Interpreter::new();
    assert_eq!(vm.interpret("let x = 1; let y = 2;".to_string()), Ok(Progress::Finished(None)));
    vm.reset();
    assert_eq!(vm.variable("x"), None);
    assert_eq!(vm.variable("y"), None);
    assert_eq!(vm.interpret("x".to_string()), failed(RuntimeError::UninitialisedVariable));
}

#[test]
fn a_text_that_does_not_compile_leaves_the_machine_as_it_was() {
    let mut vm = Interpreter::new();
    assert_eq!(
        vm.interpret("let x = 2 * 3;".to_string()),
        Ok(Progress::Awaiting(Request::Multiply { left: literal("2"), right: literal("3") }))
    );
    assert_eq!(
        vm.interpret("?".to_string()),
        Err(InterpreterError::Compiler(CompilerError::Lexer(LexerError::UnexpectedCharacter {
            char: "?".to_string(),
            meta: TokenMeta { row: 0, col: 0 },
        })))
    );
    assert_eq!(vm.resume(6), Ok(Progress::Finished(None)));
    assert_eq!(vm.variable("x"), Some(computed(6)));
}

#[test]
fn every_program_starts_with_an_empty_stack() {
    let mut vm = Interpreter::new();
    assert_eq!(vm.interpret("1; 2".to_string()), failed(RuntimeError::IncompleteExpression));
    assert_eq!(vm.interpret("3".to_string()), Ok(Progress::Finished(Some(numeral("3")))));
}

#[test]
fn more_than_one_value_left_is_incomplete() {
    let mut vm = Interpreter::new();
    assert_eq!(vm.interpret("1; 2;".to_string()), failed(RuntimeError::IncompleteExpression));
    let program = chunk(vec![0, 0, 0, 0, 0, 0], vec![numeral("1")]);
    assert_eq!(vm.interpret_chunk(program), failed(RuntimeError::IncompleteExpression));
}

#[test]
fn a_word_that_is_no_operation() {
    let mut vm = Interpreter::new();
    assert_eq!(
        vm.interpret_chunk(chunk(vec![99], vec![])),
        failed(RuntimeError::InvalidOpCode(99))
    );
    assert_eq!(
        vm.interpret_chunk(chunk(vec![0, 0, 8], vec![numeral("1")])),
        failed(RuntimeError::InvalidOpCode(8))
    );
}

#[test]
fn arithmetic_on_too_few_values() {
    let mut vm = Interpreter::new();
    assert_eq!(vm.interpret_chunk(chunk(vec![5], vec![])), failed(RuntimeError::ExpectedOperand));
    assert_eq!(vm.interpret_chunk(chunk(vec![1], vec![])), failed(RuntimeError::ExpectedOperand));
    for operation in [1, 2, 3, 4] {
        let program = chunk(vec![0, 0, operation], vec![numeral("1")]);
        assert_eq!(vm.interpret_chunk(program), failed(RuntimeError::ExpectedOperand));
    }
}

#[test]
fn arithmetic_on_a_name() {
    let mut vm = Interpreter::new();
    let program = chunk(vec![0, 0, 5], vec![name("x")]);
    assert_eq!(vm.interpret_chunk(program), failed(RuntimeError::ExpectedOperand));
    let program = chunk(vec![0, 0, 0, 1, 1], vec![name("x"), numeral("1")]);
    assert_eq!(vm.interpret_chunk(program), failed(RuntimeError::ExpectedOperand));
    let program = chunk(vec![0, 1, 0, 0, 3], vec![name("x"), numeral("1")]);
    assert_eq!(vm.interpret_chunk(program), failed(RuntimeError::ExpectedOperand));
}

#[test]
fn a_name_can_be_a_result_and_a_value() {
    let mut vm = Interpreter::new();
    let program = chunk(vec![0, 0], vec![name("x")]);
    assert_eq!(vm.interpret_chunk(program), Ok(Progress::Finished(Some(name("x")))));
    let program = chunk(vec![0, 0, 6, 1], vec![name("x"), name("y")]);
    assert_eq!(vm.interpret_chunk(program), Ok(Progress::Finished(None)));
    assert_eq!(vm.variable("y"), Some(name("x")));
}

#[test]
fn a_write_without_a_value() {
    let mut vm = Interpreter::new();
    let program = chunk(vec![6, 0], vec![name("x")]);
    assert_eq!(vm.interpret_chunk(program), failed(RuntimeError::ExpectedExpression));
    assert_eq!(vm.variable("x"), None);
}

#[test]
fn the_value_is_taken_before_the_name_is_looked_at() {
    let mut vm = Interpreter::new();
    let program = chunk(vec![6, 0], vec![numeral("1")]);
    assert_eq!(vm.interpret_chunk(program), failed(RuntimeError::ExpectedExpression));
}

#[test]
fn a_write_to_what_is_no_name() {
    let mut vm = Interpreter::new();
    let program = chunk(vec![0, 0, 6, 0], vec![numeral("1")]);
    assert_eq!(vm.interpret_chunk(program), failed(RuntimeError::InvalidIdentifier));
}

#[test]
fn a_read_of_what_is_no_name() {
    let mut vm = Interpreter::new();
    let program = chunk(vec![7, 0], vec![numeral("1")]);
    assert_eq!(vm.interpret_chunk(program), failed(RuntimeError::InvalidIdentifier));
}

#[test]
fn a_read_of_an_unbound_name() {
    let mut vm = Interpreter::new();
    let program = chunk(vec![7, 0], vec![name("x")]);
    assert_eq!(vm.interpret_chunk(program), failed(RuntimeError::UninitialisedVariable));
}

#[test]
fn an_operation_that_combines_no_operands() {
    let mut vm = Interpreter::new();
    let program =
        chunk(vec![0, 0, 0, 1, 0, 2, 5, 5], vec![numeral("1"), numeral("2"), numeral("3")]);
    assert_eq!(
        vm.interpret_chunk(program),
        Ok(Progress::Awaiting(Request::Negate { operand: literal("3") }))
    );
    assert!(!vm.at_end());
    assert_eq!(
        vm.interpret_binary_op(OpCode::Negate),
        Err(InterpreterError::Runtime(RuntimeError::InvalidBinaryOperator))
    );
}

#[test]
fn operands_are_taken_right_then_left() {
    let mut vm = Interpreter::new();
    let program =
        chunk(vec![0, 0, 0, 1, 0, 2, 5, 5], vec![numeral("1"), numeral("2"), numeral("3")]);
    assert_eq!(
        vm.interpret_chunk(program),
        Ok(Progress::Awaiting(Request::Negate { operand: literal("3") }))
    );
    assert!(!vm.at_end());
    assert_eq!(
        vm.interpret_binary_op(OpCode::Subtract),
        Ok(Request::Subtract { left: literal("1"), right: literal("2") })
    );
    assert!(vm.at_end());
}

#[test]
fn values_clone_equal() {
    assert_eq!(numeral("1.5").clone(), numeral("1.5"));
    assert_eq!(computed(7).clone(), computed(7));
    assert_eq!(name("x").clone(), name("x"));
}
