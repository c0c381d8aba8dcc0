//! What a program means, read off its tree, and the proof that the compiled
//! program means the same.
//!
//! Arithmetic is the host's: the meaning of a tree is stated for every host,
//! a function from requests to the words that answer them.

use crate::compiler::chunk::SpecChunk;
use crate::compiler::op_code::{lemma_word_decode, OpCode, SpecNumber, SpecValue};
use crate::compiler::{
    binary_op_code, compile_ast_spec, compile_spec, emit, extends, lemma_emit_constants,
    lemma_emit_extends, lemma_program_compiles, with_operand,
};
use crate::interpreter::{binary_request, Machine, Ran, RuntimeError, SpecProgress, SpecRequest};
use crate::lexer::laws::lemma_tokens_are_no_more_than_characters;
use crate::lexer::{lex_all, OpToken, SpecToken, TokenClass};
use crate::parser::ast::SpecAstNode;
use crate::parser::parser::{lemma_parse_yields_program, parse_spec};
use vstd::prelude::*;

verus! {

/// The negation of a value, which has to be a number.
pub open spec fn negation(value: SpecValue, host: spec_fn(SpecRequest) -> u64) -> Result<
    SpecValue,
    RuntimeError,
> {
    match value {
        SpecValue::Number(operand) => Ok(
            SpecValue::Number(SpecNumber::Computed(host(SpecRequest::Negate { operand }))),
        ),
        _ => Err(RuntimeError::ExpectedOperand),
    }
}

/// Two values combined by an operation of arithmetic. Both have to be
/// numbers.
pub open spec fn combination(
    op: OpCode,
    left: SpecValue,
    right: SpecValue,
    host: spec_fn(SpecRequest) -> u64,
) -> Result<SpecValue, RuntimeError> {
    match (left, right) {
        (SpecValue::Number(left), SpecValue::Number(right)) => match binary_request(
            op,
            left,
            right,
        ) {
            Some(request) => Ok(SpecValue::Number(SpecNumber::Computed(host(request)))),
            None => Err(RuntimeError::InvalidBinaryOperator),
        },
        _ => Err(RuntimeError::ExpectedOperand),
    }
}

/// The value of an expression.
///
/// A literal is its numeral. A variable is the value bound to its name, and
/// an error if none is. A parenthesis is what it holds. A negation is the
/// negation of its operand. A binary node is the value of its left operand
/// and that of its right operand, in this order, combined by its operator:
/// the left operand fails before the right one does.
pub open spec fn value_of(
    node: SpecAstNode,
    variables: Map<Seq<char>, SpecValue>,
    host: spec_fn(SpecRequest) -> u64,
) -> Result<SpecValue, RuntimeError>
    decreases node,
{
    match node {
        SpecAstNode::NumericLit { token, value } => Ok(
            SpecValue::Number(SpecNumber::Literal(value)),
        ),
        SpecAstNode::VariableAccessExpr { token, identifier } => {
            if variables.contains_key(identifier) {
                Ok(variables[identifier])
            } else {
                Err(RuntimeError::UninitialisedVariable)
            }
        },
        SpecAstNode::Expr { token, expr } => value_of(*expr, variables, host),
        SpecAstNode::UnaryExpr { token, operand } => match value_of(*operand, variables, host) {
            Ok(value) => negation(value, host),
            Err(err) => Err(err),
        },
        SpecAstNode::BinaryExpr { token, left, right } => match value_of(*left, variables, host) {
            Ok(lhs) => match value_of(*right, variables, host) {
                Ok(rhs) => match binary_op_code(token.token_class) {
                    Ok(op) => combination(op, lhs, rhs, host),
                    Err(_) => Err(RuntimeError::InvalidBinaryOperator),
                },
                Err(err) => Err(err),
            },
            Err(err) => Err(err),
        },
        _ => Err(RuntimeError::ExpectedExpression),
    }
}

/// What the items of a program leave: the variables, the values of the
/// expressions among the items, and the error that stopped the program, if
/// one did.
pub struct Residue {
    pub variables: Map<Seq<char>, SpecValue>,
    pub values: Seq<SpecValue>,
    pub error: Option<RuntimeError>,
}

/// What the items of `node` leave, run in order after items that left
/// `variables` and `values`.
///
/// An assignment binds the value of its expression to its name and leaves
/// no value. An expression leaves its value. The first item that fails stops
/// the program, and what the items before it bound stays bound.
pub open spec fn evaluate_items(
    node: SpecAstNode,
    variables: Map<Seq<char>, SpecValue>,
    values: Seq<SpecValue>,
    host: spec_fn(SpecRequest) -> u64,
) -> Residue
    decreases node,
{
    match node {
        SpecAstNode::Empty => Residue { variables, values, error: None },
        SpecAstNode::Sequence { first, second } => {
            let head = evaluate_items(*first, variables, values, host);
            if head.error is Some {
                head
            } else {
                evaluate_items(*second, head.variables, head.values, host)
            }
        },
        SpecAstNode::VariableAssignmentStmt { token, identifier, expression } => match value_of(
            *expression,
            variables,
            host,
        ) {
            Ok(value) => Residue {
                variables: variables.insert(identifier, value),
                values,
                error: None,
            },
            Err(err) => Residue { variables, values, error: Some(err) },
        },
        _ => match value_of(node, variables, host) {
            Ok(value) => Residue { variables, values: values.push(value), error: None },
            Err(err) => Residue { variables, values, error: Some(err) },
        },
    }
}

/// The variables after a program, and its result or the error that stopped
/// it.
pub struct Evaluated {
    pub variables: Map<Seq<char>, SpecValue>,
    pub outcome: Result<Option<SpecValue>, RuntimeError>,
}

/// What a program does to the variables, and its result: the value that its
/// items leave. A program that leaves no value has no result, and one that
/// leaves more than one is in error.
pub open spec fn evaluate(
    node: SpecAstNode,
    variables: Map<Seq<char>, SpecValue>,
    host: spec_fn(SpecRequest) -> u64,
) -> Evaluated {
    let residue = evaluate_items(node, variables, Seq::empty(), host);
    Evaluated {
        variables: residue.variables,
        outcome: match residue.error {
            Some(err) => Err(err),
            None => {
                if residue.values.len() > 1 {
                    Err(RuntimeError::IncompleteExpression)
                } else if residue.values.len() == 1 {
                    Ok(Some(residue.values[0]))
                } else {
                    Ok(None)
                }
            },
        },
    }
}

impl Ran {
    /// What a run to the end says of the program: the variables it left,
    /// and its result or its error. (A run that ends with a request is not
    /// at its end, and counts as one that lacks an operand; a run with a
    /// host that answers never ends so.)
    pub open spec fn evaluated(self) -> Evaluated {
        Evaluated {
            variables: self.machine.variables,
            outcome: match self.outcome {
                Ok(SpecProgress::Finished(value)) => Ok(value),
                Ok(SpecProgress::Awaiting(_)) => Err(RuntimeError::ExpectedOperand),
                Err(err) => Err(err),
            },
        }
    }
}

/// A chunk holds what the chunks hold that it holds.
proof fn lemma_extends_transitive(longest: SpecChunk, longer: SpecChunk, shortest: SpecChunk)
    requires
        extends(longest, longer),
        extends(longer, shortest),
    ensures
        extends(longest, shortest),
{
    assert forall|i: int| 0 <= i < shortest.code.len() implies longest.code[i]
        == shortest.code[i] by {
        assert(longer.code[i] == shortest.code[i]);
    }
    assert forall|i: int| 0 <= i < shortest.constants.len() implies longest.constants[i]
        == shortest.constants[i] by {
        assert(longer.constants[i] == shortest.constants[i]);
    }
}

/// A machine that stands before an operation and its constant, in a chunk
/// that holds both, reads that operation and that constant.
proof fn lemma_reads_operand(
    machine: Machine,
    base: SpecChunk,
    op: OpCode,
    value: SpecValue,
    token: SpecToken,
)
    requires
        extends(machine.chunk, with_operand(base, op, value, token)),
        machine.ip == base.code.len(),
        base.constants.len() < usize::MAX,
    ensures
        !machine.at_end(),
        OpCode::decode(machine.chunk.code[machine.ip]) == Some(op),
        machine.operand() == value,
{
    let added = with_operand(base, op, value, token);
    let ip = machine.ip;
    assert(added.code[ip] == op.word());
    assert(added.code[ip + 1] == base.constants.len());
    assert(added.constants[base.constants.len() as int] == value);
    assert(machine.chunk.code[ip] == added.code[ip]);
    assert(machine.chunk.code[ip + 1] == added.code[ip + 1]);
    let index = base.constants.len() as int;
    assert(machine.chunk.constants[index] == added.constants[index]);
    lemma_word_decode(op, 0);
}

/// A machine that stands before an operation without operand, in a chunk
/// that holds it, reads that operation.
proof fn lemma_reads_instruction(
    machine: Machine,
    base: SpecChunk,
    op: OpCode,
    token: SpecToken,
)
    requires
        extends(machine.chunk, base.with_instruction(op, token)),
        machine.ip == base.code.len(),
    ensures
        !machine.at_end(),
        OpCode::decode(machine.chunk.code[machine.ip]) == Some(op),
{
    let added = base.with_instruction(op, token);
    let ip = machine.ip;
    assert(added.code[ip] == op.word());
    assert(machine.chunk.code[ip] == added.code[ip]);
    lemma_word_decode(op, 0);
}

/// The code of an expression computes the value of the expression: run
/// from the start of that code, the machine goes on as it does from the end
/// of the code with the value on top of the stack, and fails where the
/// expression has no value.
pub proof fn lemma_expression_code(
    node: SpecAstNode,
    base: SpecChunk,
    machine: Machine,
    host: spec_fn(SpecRequest) -> u64,
)
    requires
        node.is_expression(),
        extends(machine.chunk, emit(node, base).chunk),
        machine.ip == base.code.len(),
        emit(node, base).chunk.constants.len() <= usize::MAX,
    ensures
        emit(node, base).error is None,
        match value_of(node, machine.variables, host) {
            Ok(value) => machine.complete(host) == (Machine {
                stack: machine.stack.push(value),
                ip: emit(node, base).chunk.code.len() as int,
                ..machine
            }).complete(host),
            Err(err) => machine.complete(host).outcome == Err::<SpecProgress, RuntimeError>(err)
                && machine.complete(host).machine.variables == machine.variables,
        },
    decreases node,
{
    lemma_program_compiles(node, base);
    lemma_emit_extends(node, base);
    match node {
        SpecAstNode::NumericLit { token, value } => {
            lemma_reads_operand(
                machine,
                base,
                OpCode::Constant,
                SpecValue::Number(SpecNumber::Literal(value)),
                token,
            );
        },
        SpecAstNode::VariableAccessExpr { token, identifier } => {
            lemma_reads_operand(
                machine,
                base,
                OpCode::GetVar,
                SpecValue::String(identifier),
                token,
            );
        },
        SpecAstNode::Expr { token, expr } => {
            lemma_expression_code(*expr, base, machine, host);
        },
        SpecAstNode::UnaryExpr { token, operand } => {
            let inner = emit(*operand, base).chunk;
            lemma_program_compiles(*operand, base);
            lemma_emit_extends(*operand, base);
            lemma_extends_transitive(machine.chunk, emit(node, base).chunk, inner);
            lemma_expression_code(*operand, base, machine, host);
            match value_of(*operand, machine.variables, host) {
                Ok(value) => {
                    let after = Machine {
                        stack: machine.stack.push(value),
                        ip: inner.code.len() as int,
                        ..machine
                    };
                    lemma_reads_instruction(after, inner, OpCode::Negate, token);
                    assert(after.stack.drop_last() =~= machine.stack);
                },
                Err(_) => {},
            }
        },
        SpecAstNode::BinaryExpr { token, left, right } => {
            let lhs = emit(*left, base).chunk;
            let rhs = emit(*right, lhs).chunk;
            let op = binary_op_code(token.token_class)->Ok_0;
            lemma_program_compiles(*left, base);
            lemma_program_compiles(*right, lhs);
            lemma_emit_extends(*left, base);
            lemma_emit_extends(*right, lhs);
            lemma_extends_transitive(machine.chunk, emit(node, base).chunk, rhs);
            lemma_extends_transitive(machine.chunk, rhs, lhs);
            lemma_expression_code(*left, base, machine, host);
            match value_of(*left, machine.variables, host) {
                Ok(left_value) => {
                    let after_left = Machine {
                        stack: machine.stack.push(left_value),
                        ip: lhs.code.len() as int,
                        ..machine
                    };
                    lemma_expression_code(*right, lhs, after_left, host);
                    match value_of(*right, machine.variables, host) {
                        Ok(right_value) => {
                            let after_right = Machine {
                                stack: after_left.stack.push(right_value),
                                ip: rhs.code.len() as int,
                                ..machine
                            };
                            lemma_reads_instruction(after_right, rhs, op, token);
                            assert(after_right.stack.take(after_right.stack.len() - 2)
                                =~= machine.stack);
                        },
                        Err(_) => {},
                    }
                },
                Err(_) => {},
            }
        },
        _ => {},
    }
}

/// The code of a program does what its items do: run from the start of
/// that code, the machine goes on as it does from the end of the code with
/// the variables and the values that the items leave, and fails where an
/// item fails, with the variables as they were then.
pub proof fn lemma_program_code(
    node: SpecAstNode,
    base: SpecChunk,
    machine: Machine,
    host: spec_fn(SpecRequest) -> u64,
)
    requires
        node.is_program(),
        extends(machine.chunk, emit(node, base).chunk),
        machine.ip == base.code.len(),
        emit(node, base).chunk.constants.len() <= usize::MAX,
    ensures
        emit(node, base).error is None,
        ({
            let residue = evaluate_items(node, machine.variables, machine.stack, host);
            match residue.error {
                None => machine.complete(host) == (Machine {
                    variables: residue.variables,
                    stack: residue.values,
                    ip: emit(node, base).chunk.code.len() as int,
                    ..machine
                }).complete(host),
                Some(err) => machine.complete(host).outcome == Err::<SpecProgress, RuntimeError>(
                    err,
                ) && machine.complete(host).machine.variables == residue.variables,
            }
        }),
    decreases node,
{
    lemma_program_compiles(node, base);
    lemma_emit_extends(node, base);
    match node {
        SpecAstNode::Empty => {},
        SpecAstNode::Sequence { first, second } => {
            let head = emit(*first, base).chunk;
            lemma_program_compiles(*first, base);
            lemma_emit_extends(*first, base);
            lemma_emit_extends(*second, head);
            lemma_extends_transitive(machine.chunk, emit(node, base).chunk, head);
            lemma_program_code(*first, base, machine, host);
            let residue = evaluate_items(*first, machine.variables, machine.stack, host);
            if residue.error is None {
                let after = Machine {
                    variables: residue.variables,
                    stack: residue.values,
                    ip: head.code.len() as int,
                    ..machine
                };
                lemma_item_code(*second, head, after, host);
            }
        },
        _ => {
            lemma_item_code(node, base, machine, host);
        },
    }
}

/// The code of one item does what the item does.
pub proof fn lemma_item_code(
    node: SpecAstNode,
    base: SpecChunk,
    machine: Machine,
    host: spec_fn(SpecRequest) -> u64,
)
    requires
        node.is_item(),
        extends(machine.chunk, emit(node, base).chunk),
        machine.ip == base.code.len(),
        emit(node, base).chunk.constants.len() <= usize::MAX,
    ensures
        emit(node, base).error is None,
        ({
            let residue = evaluate_items(node, machine.variables, machine.stack, host);
            match residue.error {
                None => machine.complete(host) == (Machine {
                    variables: residue.variables,
                    stack: residue.values,
                    ip: emit(node, base).chunk.code.len() as int,
                    ..machine
                }).complete(host),
                Some(err) => machine.complete(host).outcome == Err::<SpecProgress, RuntimeError>(
                    err,
                ) && machine.complete(host).machine.variables == residue.variables,
            }
        }),
{
    lemma_emit_extends(node, base);
    match node {
        SpecAstNode::VariableAssignmentStmt { token, identifier, expression } => {
            let value_code = emit(*expression, base).chunk;
            lemma_program_compiles(*expression, base);
            lemma_emit_extends(*expression, base);
            lemma_extends_transitive(machine.chunk, emit(node, base).chunk, value_code);
            lemma_expression_code(*expression, base, machine, host);
            match value_of(*expression, machine.variables, host) {
                Ok(value) => {
                    let after = Machine {
                        stack: machine.stack.push(value),
                        ip: value_code.code.len() as int,
                        ..machine
                    };
                    lemma_reads_operand(
                        after,
                        value_code,
                        OpCode::SetVar,
                        SpecValue::String(identifier),
                        token,
                    );
                    assert(after.stack.drop_last() =~= machine.stack);
                },
                Err(_) => {},
            }
        },
        _ => {
            lemma_expression_code(node, base, machine, host);
        },
    }
}

/// Compiling a program and running its code to the end gives what the
/// program's tree says: the same result or the same error, and the same
/// variables, whatever the variables were before and whatever the host
/// computes.
pub proof fn theorem_compiled_program_evaluates(
    node: SpecAstNode,
    machine: Machine,
    host: spec_fn(SpecRequest) -> u64,
)
    requires
        node.is_program(),
        node.atoms() <= usize::MAX,
    ensures
        compile_ast_spec(node) is Ok,
        machine.load(compile_ast_spec(node)->Ok_0).complete(host).evaluated() == evaluate(
            node,
            machine.variables,
            host,
        ),
{
    let chunk = emit(node, SpecChunk::empty()).chunk;
    let start = machine.load(chunk);
    lemma_emit_constants(node, SpecChunk::empty());
    lemma_program_code(node, SpecChunk::empty(), start, host);
}

/// A text that scans and parses compiles, and its code, run to the end,
/// gives what the parsed tree says.
pub proof fn theorem_text_evaluates(
    input: Seq<char>,
    machine: Machine,
    host: spec_fn(SpecRequest) -> u64,
)
    requires
        input.len() < usize::MAX,
        lex_all(input).error is None,
        parse_spec(lex_all(input).tokens) is Ok,
    ensures
        compile_spec(input) is Ok,
        machine.load(compile_spec(input)->Ok_0).complete(host).evaluated() == evaluate(
            parse_spec(lex_all(input).tokens)->Ok_0,
            machine.variables,
            host,
        ),
{
    lemma_tokens_are_no_more_than_characters(input, 0, 0, 0);
    lemma_parse_yields_program(lex_all(input).tokens);
    theorem_compiled_program_evaluates(parse_spec(lex_all(input).tokens)->Ok_0, machine, host);
}

/// Variables that all hold numbers.
pub open spec fn numeric(variables: Map<Seq<char>, SpecValue>) -> bool {
    forall|name: Seq<char>| #[trigger] variables.contains_key(name) ==> variables[name] is Number
}

/// Over variables that hold numbers, an expression has a number for its
/// value, or reads a variable that was never written.
pub proof fn lemma_expression_outcomes(
    node: SpecAstNode,
    variables: Map<Seq<char>, SpecValue>,
    host: spec_fn(SpecRequest) -> u64,
)
    requires
        node.is_expression(),
        numeric(variables),
    ensures
        match value_of(node, variables, host) {
            Ok(value) => value is Number,
            Err(err) => err == RuntimeError::UninitialisedVariable,
        },
    decreases node,
{
    match node {
        SpecAstNode::Expr { token, expr } => {
            lemma_expression_outcomes(*expr, variables, host);
        },
        SpecAstNode::UnaryExpr { token, operand } => {
            lemma_expression_outcomes(*operand, variables, host);
        },
        SpecAstNode::BinaryExpr { token, left, right } => {
            lemma_expression_outcomes(*left, variables, host);
            lemma_expression_outcomes(*right, variables, host);
        },
        _ => {},
    }
}

/// Over variables that hold numbers, the items of a program leave numbers,
/// in the variables and as values, and fail only where they read a variable
/// that was never written.
pub proof fn lemma_item_outcomes(
    node: SpecAstNode,
    variables: Map<Seq<char>, SpecValue>,
    values: Seq<SpecValue>,
    host: spec_fn(SpecRequest) -> u64,
)
    requires
        node.is_program(),
        numeric(variables),
        forall|i: int| 0 <= i < values.len() ==> #[trigger] values[i] is Number,
    ensures
        ({
            let residue = evaluate_items(node, variables, values, host);
            &&& numeric(residue.variables)
            &&& forall|i: int| 0 <= i < residue.values.len() ==> #[trigger] residue.values[i]
                is Number
            &&& residue.error matches Some(err) ==> err == RuntimeError::UninitialisedVariable
        }),
    decreases node,
{
    match node {
        SpecAstNode::Empty => {},
        SpecAstNode::Sequence { first, second } => {
            lemma_item_outcomes(*first, variables, values, host);
            let head = evaluate_items(*first, variables, values, host);
            if head.error is None {
                lemma_item_outcomes(*second, head.variables, head.values, host);
            }
        },
        SpecAstNode::VariableAssignmentStmt { token, identifier, expression } => {
            lemma_expression_outcomes(*expression, variables, host);
        },
        _ => {
            lemma_expression_outcomes(node, variables, host);
        },
    }
}

/// A program that is compiled from a tree of the parser and run over
/// variables that hold numbers ends in one of four ways: with a number, with
/// nothing, with a read of a variable that was never written, or with more
/// than one value left. Its variables hold numbers afterwards.
pub proof fn theorem_outcomes_of_programs(
    node: SpecAstNode,
    machine: Machine,
    host: spec_fn(SpecRequest) -> u64,
)
    requires
        node.is_program(),
        node.atoms() <= usize::MAX,
        numeric(machine.variables),
    ensures
        ({
            let ran = machine.load(compile_ast_spec(node)->Ok_0).complete(host).evaluated();
            &&& numeric(ran.variables)
            &&& match ran.outcome {
                Ok(Some(value)) => value is Number,
                Ok(None) => true,
                Err(err) => err == RuntimeError::UninitialisedVariable || err
                    == RuntimeError::IncompleteExpression,
            }
        }),
{
    theorem_compiled_program_evaluates(node, machine, host);
    lemma_item_outcomes(node, machine.variables, Seq::empty(), host);
}

/// Subtraction and division take their operands in the order of the text:
/// the value of the left operand is the host's `left`, that of the right
/// operand its `right`, in the tree and in the code compiled from it.
pub proof fn theorem_operands_keep_their_order(
    token: SpecToken,
    left: SpecAstNode,
    right: SpecAstNode,
    machine: Machine,
    host: spec_fn(SpecRequest) -> u64,
)
    requires
        token.token_class == TokenClass::Op(OpToken::Min)
            || token.token_class == TokenClass::Op(OpToken::Slash),
        left.is_expression(),
        right.is_expression(),
        value_of(left, machine.variables, host) is Ok,
        value_of(right, machine.variables, host) is Ok,
        value_of(left, machine.variables, host)->Ok_0 is Number,
        value_of(right, machine.variables, host)->Ok_0 is Number,
        left.atoms() + right.atoms() <= usize::MAX,
    ensures
        ({
            let node = SpecAstNode::BinaryExpr {
                token,
                left: Box::new(left),
                right: Box::new(right),
            };
            let lhs = value_of(left, machine.variables, host)->Ok_0->Number_0;
            let rhs = value_of(right, machine.variables, host)->Ok_0->Number_0;
            let asked = if token.token_class == TokenClass::Op(
                OpToken::Min,
            ) {
                SpecRequest::Subtract { left: lhs, right: rhs }
            } else {
                SpecRequest::Divide { left: lhs, right: rhs }
            };
            let result = Ok::<Option<SpecValue>, RuntimeError>(
                Some(SpecValue::Number(SpecNumber::Computed(host(asked)))),
            );
            &&& evaluate(node, machine.variables, host).outcome == result
            &&& machine.load(compile_ast_spec(node)->Ok_0).complete(host).evaluated().outcome
                == result
        }),
{
    let node = SpecAstNode::BinaryExpr { token, left: Box::new(left), right: Box::new(right) };
    theorem_compiled_program_evaluates(node, machine, host);
}

/// A variable that was never written cannot be read: the read fails, in
/// the tree and in the code compiled from it, and binds nothing.
pub proof fn theorem_unbound_read_fails(
    token: SpecToken,
    identifier: Seq<char>,
    machine: Machine,
    host: spec_fn(SpecRequest) -> u64,
)
    requires
        !machine.variables.contains_key(identifier),
    ensures
        ({
            let node = SpecAstNode::VariableAccessExpr { token, identifier };
            let failed = Evaluated {
                variables: machine.variables,
                outcome: Err(RuntimeError::UninitialisedVariable),
            };
            &&& evaluate(node, machine.variables, host) == failed
            &&& machine.load(compile_ast_spec(node)->Ok_0).complete(host).evaluated() == failed
        }),
{
    let node = SpecAstNode::VariableAccessExpr { token, identifier };
    theorem_compiled_program_evaluates(node, machine, host);
}

/// A write binds the name to the new value whatever the name was bound to
/// before, and a read that follows gives that value.
pub proof fn theorem_write_overwrites(
    token: SpecToken,
    identifier: Seq<char>,
    expression: SpecAstNode,
    read: SpecToken,
    machine: Machine,
    host: spec_fn(SpecRequest) -> u64,
)
    requires
        expression.is_expression(),
        value_of(expression, machine.variables, host) is Ok,
        expression.atoms() + 2 <= usize::MAX,
    ensures
        ({
            let write = SpecAstNode::VariableAssignmentStmt {
                token,
                identifier,
                expression: Box::new(expression),
            };
            let node = SpecAstNode::Sequence {
                first: Box::new(write),
                second: Box::new(SpecAstNode::VariableAccessExpr { token: read, identifier }),
            };
            let value = value_of(expression, machine.variables, host)->Ok_0;
            let written = Evaluated {
                variables: machine.variables.insert(identifier, value),
                outcome: Ok(Some(value)),
            };
            &&& evaluate(node, machine.variables, host) == written
            &&& machine.load(compile_ast_spec(node)->Ok_0).complete(host).evaluated() == written
        }),
{
    let write = SpecAstNode::VariableAssignmentStmt {
        token,
        identifier,
        expression: Box::new(expression),
    };
    let node = SpecAstNode::Sequence {
        first: Box::new(write),
        second: Box::new(SpecAstNode::VariableAccessExpr { token: read, identifier }),
    };
    let access = SpecAstNode::VariableAccessExpr { token: read, identifier };
    let value = value_of(expression, machine.variables, host)->Ok_0;
    let bound = machine.variables.insert(identifier, value);
    assert(write.is_item() && write.is_program());
    assert(access.is_expression() && access.is_item());
    assert(node.is_program());
    let head = evaluate_items(write, machine.variables, Seq::empty(), host);
    assert(head == Residue { variables: bound, values: Seq::empty(), error: None });
    assert(value_of(access, bound, host) == Ok::<SpecValue, RuntimeError>(value));
    let all = evaluate_items(node, machine.variables, Seq::empty(), host);
    assert(all == evaluate_items(access, bound, Seq::empty(), host));
    assert(all.values =~= seq![value]);
    assert(write.atoms() == 1 + expression.atoms());
    assert(access.atoms() == 1);
    assert(node.atoms() == write.atoms() + access.atoms());
    theorem_compiled_program_evaluates(node, machine, host);
}

} // verus!
