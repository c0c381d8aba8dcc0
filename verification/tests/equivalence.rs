use pratt_vm::compiler::op_code::{Number, Value};
use pratt_vm::compiler::Compiler;
use pratt_vm::interpreter::{Interpreter, InterpreterError, Progress, Request, RuntimeError};
use pratt_vm::lexer::{Lexer, OpToken, TokenClass};
use pratt_vm::parser::ast::AstNode;
use pratt_vm::parser::parser::Parser;
use std::collections::HashMap;

fn number(number: &Number) -> f64 {
    match number {
        Number::Literal(numeral) => numeral.parse().unwrap(),
        Number::Computed(word) => f64::from_bits(*word),
    }
}

fn answer(request: &Request) -> u64 {
    let result = match request {
        Request::Negate { operand } => -number(operand),
        Request::Add { left, right } => number(left) + number(right),
        Request::Subtract { left, right } => number(left) - number(right),
        Request::Multiply { left, right } => number(left) * number(right),
        Request::Divide { left, right } => number(left) / number(right),
    };
    result.to_bits()
}

fn run(
    vm: &mut Interpreter,
    first: Result<Progress, InterpreterError>,
) -> Result<Option<f64>, RuntimeError> {
    let mut progress = first;
    loop {
        match progress {
            Ok(Progress::Awaiting(request)) => progress = vm.resume(answer(&request)),
            Ok(Progress::Finished(Some(Value::Number(result)))) => return Ok(Some(number(&result))),
            Ok(Progress::Finished(Some(Value::String(name)))) => panic!("{}", name),
            Ok(Progress::Finished(None)) => return Ok(None),
            Err(InterpreterError::Runtime(error)) => return Err(error),
            Err(other) => panic!("{:?}", other),
        }
    }
}

fn parse(text: &str) -> Box<AstNode> {
    let mut lexer = Lexer::new(text.to_string());
    lexer.tokenize().unwrap();
    let mut parser = Parser::new(&lexer.tokens);
    parser.parse().unwrap()
}

fn value_of(node: &AstNode, variables: &HashMap<String, f64>) -> Result<f64, RuntimeError> {
    match node {
        AstNode::NumericLit { value, .. } => Ok(value.parse().unwrap()),
        AstNode::VariableAccessExpr { identifier, .. } => {
            variables.get(identifier).copied().ok_or(RuntimeError::UninitialisedVariable)
        }
        AstNode::Expr { expr, .. } => value_of(expr, variables),
        AstNode::UnaryExpr { operand, .. } => Ok(-value_of(operand, variables)?),
        AstNode::BinaryExpr { token, left, right } => {
            let left = value_of(left, variables)?;
            let right = value_of(right, variables)?;
            match token.token_class {
                TokenClass::Op(OpToken::Plus) => Ok(left + right),
                TokenClass::Op(OpToken::Min) => Ok(left - right),
                TokenClass::Op(OpToken::Star) => Ok(left * right),
                TokenClass::Op(OpToken::Slash) => Ok(left / right),
                _ => Err(RuntimeError::InvalidBinaryOperator),
            }
        }
        _ => Err(RuntimeError::ExpectedExpression),
    }
}

fn items(
    node: &AstNode,
    variables: &mut HashMap<String, f64>,
    values: &mut Vec<f64>,
) -> Result<(), RuntimeError> {
    match node {
        AstNode::Empty => Ok(()),
        AstNode::Sequence { first, second } => {
            items(first, variables, values)?;
            items(second, variables, values)
        }
        AstNode::VariableAssignmentStmt { identifier, expression, .. } => {
            let value = value_of(expression, variables)?;
            variables.insert(identifier.clone(), value);
            Ok(())
        }
        _ => {
            values.push(value_of(node, variables)?);
            Ok(())
        }
    }
}

fn by_the_tree(
    node: &AstNode,
    variables: &mut HashMap<String, f64>,
) -> Result<Option<f64>, RuntimeError> {
    let mut values = Vec::new();
    items(node, variables, &mut values)?;
    match values.len() {
        0 => Ok(None),
        1 => Ok(Some(values[0])),
        _ => Err(RuntimeError::IncompleteExpression),
    }
}

fn same(text: &str, expected: Result<Option<f64>, RuntimeError>) {
    let mut vm = Interpreter::new();
    let first = vm.interpret("let a = 7; let b = 0 - 2.5;".to_string());
    assert_eq!(run(&mut vm, first), Ok(None));
    let mut variables = HashMap::new();
    variables.insert("a".to_string(), 7.0);
    variables.insert("b".to_string(), -2.5);

    let first = vm.interpret(text.to_string());
    let by_the_code = run(&mut vm, first);
    assert_eq!(by_the_code, by_the_tree(&parse(text), &mut variables));
    assert_eq!(by_the_code, expected);
    for (name, value) in variables {
        match vm.variable(&name) {
            Some(Value::Number(bound)) => assert_eq!(number(&bound), value),
            other => panic!("{:?}", other),
        }
    }
}

#[test]
fn the_code_computes_what_the_tree_says() {
    same("1 + 2 * 3;", Ok(Some(7.0)));
    same("1 - 2 * 3", Ok(Some(-3.0)));
    same("8 / 2 * 2", Ok(Some(2.0)));
    same("1 / 2 / 4", Ok(Some(2.0)));
    same("10 - 4 - 3", Ok(Some(3.0)));
    same("2 * 3 + 4 * 5", Ok(Some(26.0)));
    same("2 * (3 + 4) * 5", Ok(Some(70.0)));
    same("-(3 - 1);", Ok(Some(-2.0)));
    same("- a * b", Ok(Some(17.5)));
    same("a / b - b / a", Ok(Some((7.0 / -2.5 - -2.5) / 7.0)));
    same("(a - b ) / (a + b )", Ok(Some(9.5 / 4.5)));
    same("0.1 + 0.2", Ok(Some(0.1 + 0.2)));
}

#[test]
fn the_code_binds_what_the_tree_says() {
    same("let c = a * b ;", Ok(None));
    same("let a = a + 1; a", Ok(Some(8.0)));
    same("let c = 1; let d = c + c ; d * d", Ok(Some(4.0)));
    same("let c = 1; let c = 2; c", Ok(Some(2.0)));
}

#[test]
fn the_code_fails_where_the_tree_says() {
    same("c", Err(RuntimeError::UninitialisedVariable));
    same("a + c", Err(RuntimeError::UninitialisedVariable));
    same("let c = 1; d ; let e = 2;", Err(RuntimeError::UninitialisedVariable));
    same("1; 2", Err(RuntimeError::IncompleteExpression));
    same("a ; let c = b ; c", Err(RuntimeError::IncompleteExpression));
}

#[test]
fn a_tree_and_its_text_compile_alike() {
    let mut by_text = Compiler::new();
    by_text.compile("let x = 1 - 2 * 3; -x".to_string()).unwrap();
    let mut by_tree = Compiler::new();
    by_tree.compile_ast(&parse("let x = 1 - 2 * 3; -x")).unwrap();
    assert_eq!(by_text.into_chunk(), by_tree.into_chunk());
}
