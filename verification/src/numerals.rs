//! The numbers that reach the host.
//!
//! The host has to read the numerals that the machine hands it. Every
//! numeral that comes from a source text is one that the lexer took for a
//! numeric literal: digits with at most one dot. This module follows the
//! numerals from the tokens through the tree and the chunk to the requests of
//! the machine.

use crate::compiler::chunk::SpecChunk;
use crate::compiler::op_code::{OpCode, SpecNumber, SpecValue};
use crate::compiler::{compile_spec, emit};
use crate::interpreter::{Machine, SpecProgress, SpecRequest, Stepped};
use crate::lexer::laws::{is_numeral, lemma_tokens_spelled_by_class, spelled_by_class};
use crate::lexer::{lex_all, AtomToken, DelimToken, OpToken, SpecToken, TokenClass};
use crate::parser::ast::SpecAstNode;
use crate::parser::parser::{
    climb, infix_binding, lemma_parse_expr, lemma_parse_item, lemma_parse_nested,
    lemma_parse_unary, parse_expr_spec, parse_item_spec, parse_nested_spec, parse_program_spec,
    parse_spec, parse_unary_spec,
};
use vstd::prelude::*;

verus! {

/// A number that a host can read: a numeral, or a word of the host's own.
pub open spec fn readable_number(number: SpecNumber) -> bool {
    match number {
        SpecNumber::Literal(numeral) => is_numeral(numeral),
        SpecNumber::Computed(_) => true,
    }
}

/// A value whose number, if it is one, a host can read.
pub open spec fn readable_value(value: SpecValue) -> bool {
    match value {
        SpecValue::Number(number) => readable_number(number),
        SpecValue::String(_) => true,
    }
}

/// A request whose operands a host can read.
pub open spec fn readable_request(request: SpecRequest) -> bool {
    match request {
        SpecRequest::Negate { operand } => readable_number(operand),
        SpecRequest::Add { left, right } => readable_number(left) && readable_number(right),
        SpecRequest::Subtract { left, right } => readable_number(left) && readable_number(right),
        SpecRequest::Multiply { left, right } => readable_number(left) && readable_number(right),
        SpecRequest::Divide { left, right } => readable_number(left) && readable_number(right),
    }
}

/// What a run hands to the host, if the host can read it: the operands of a
/// request, or the result of the program.
pub open spec fn readable_progress(progress: SpecProgress) -> bool {
    match progress {
        SpecProgress::Awaiting(request) => readable_request(request),
        SpecProgress::Finished(Some(value)) => readable_value(value),
        SpecProgress::Finished(None) => true,
    }
}

/// A token stream whose every lexeme is spelled as its class asks.
pub open spec fn readable_tokens(tokens: Seq<SpecToken>) -> bool {
    forall|i: int| 0 <= i < tokens.len() ==> spelled_by_class(#[trigger] tokens[i])
}

/// A tree whose every literal holds a numeral.
pub open spec fn readable_tree(node: SpecAstNode) -> bool
    decreases node,
{
    match node {
        SpecAstNode::Empty => true,
        SpecAstNode::Sequence { first, second } => readable_tree(*first) && readable_tree(
            *second,
        ),
        SpecAstNode::VariableAssignmentStmt { token, identifier, expression } => readable_tree(
            *expression,
        ),
        SpecAstNode::Expr { token, expr } => readable_tree(*expr),
        SpecAstNode::BinaryExpr { token, left, right } => readable_tree(*left) && readable_tree(
            *right,
        ),
        SpecAstNode::UnaryExpr { token, operand } => readable_tree(*operand),
        SpecAstNode::NumericLit { token, value } => is_numeral(value),
        SpecAstNode::VariableAccessExpr { token, identifier } => true,
    }
}

/// A chunk whose every numeric constant a host can read.
pub open spec fn readable_chunk(chunk: SpecChunk) -> bool {
    forall|i: int| 0 <= i < chunk.constants.len() ==> readable_value(#[trigger] chunk.constants[i])
}

/// A machine that holds no number that a host cannot read: not among its
/// constants, not on its stack and not in its variables.
pub open spec fn readable_machine(machine: Machine) -> bool {
    &&& readable_chunk(machine.chunk)
    &&& forall|i: int| 0 <= i < machine.stack.len() ==> readable_value(#[trigger] machine.stack[i])
    &&& forall|name: Seq<char>| #[trigger]
        machine.variables.contains_key(name) ==> readable_value(machine.variables[name])
}

/// An expression parsed from readable tokens is a readable tree.
pub proof fn lemma_parse_expr_readable(tokens: Seq<SpecToken>, pos: int, min_bp: int)
    requires
        readable_tokens(tokens),
    ensures
        parse_expr_spec(tokens, pos, min_bp).result matches Ok(node) ==> readable_tree(node),
    decreases tokens.len() - pos, 1int,
{
    if 0 <= pos < tokens.len() {
        let token = tokens[pos];
        assert(spelled_by_class(token));
        match token.token_class {
            TokenClass::Op(OpToken::Min) => {
                lemma_parse_unary(tokens, pos + 1, token);
                lemma_parse_unary_readable(tokens, pos + 1, token);
                let operand = parse_unary_spec(tokens, pos + 1, token);
                if operand.result is Ok {
                    lemma_climb_readable(tokens, operand.pos, operand.result->Ok_0, min_bp);
                }
            },
            TokenClass::Op(OpToken::LeftParen) => {
                lemma_parse_nested(tokens, pos + 1, token);
                lemma_parse_nested_readable(tokens, pos + 1, token);
                let operand = parse_nested_spec(tokens, pos + 1, token);
                if operand.result is Ok {
                    lemma_climb_readable(tokens, operand.pos, operand.result->Ok_0, min_bp);
                }
            },
            TokenClass::Atom(AtomToken::NumericLit) => {
                lemma_climb_readable(
                    tokens,
                    pos + 1,
                    SpecAstNode::NumericLit { token, value: token.lexeme },
                    min_bp,
                );
            },
            TokenClass::Atom(AtomToken::Identifier) => {
                lemma_climb_readable(
                    tokens,
                    pos + 1,
                    SpecAstNode::VariableAccessExpr { token, identifier: token.lexeme },
                    min_bp,
                );
            },
            _ => {},
        }
    }
}

/// A negation parsed from readable tokens is a readable tree.
pub proof fn lemma_parse_unary_readable(tokens: Seq<SpecToken>, pos: int, token: SpecToken)
    requires
        readable_tokens(tokens),
    ensures
        parse_unary_spec(tokens, pos, token).result matches Ok(node) ==> readable_tree(node),
    decreases tokens.len() - pos, 2int,
{
    match token.token_class {
        TokenClass::Op(op) => match infix_binding(op) {
            Some((_, right_bp)) => {
                lemma_parse_expr_readable(tokens, pos, right_bp as int);
            },
            None => {},
        },
        _ => {},
    }
}

/// A parenthesis parsed from readable tokens is a readable tree.
pub proof fn lemma_parse_nested_readable(tokens: Seq<SpecToken>, pos: int, token: SpecToken)
    requires
        readable_tokens(tokens),
    ensures
        parse_nested_spec(tokens, pos, token).result matches Ok(node) ==> readable_tree(node),
    decreases tokens.len() - pos, 2int,
{
    lemma_parse_expr_readable(tokens, pos, 0);
}

/// A climb over readable tokens from a readable tree ends with a readable
/// tree.
pub proof fn lemma_climb_readable(
    tokens: Seq<SpecToken>,
    pos: int,
    lhs: SpecAstNode,
    min_bp: int,
)
    requires
        readable_tokens(tokens),
        readable_tree(lhs),
    ensures
        climb(tokens, pos, lhs, min_bp).result matches Ok(node) ==> readable_tree(node),
    decreases tokens.len() - pos, 0int,
{
    if 0 <= pos < tokens.len() {
        let token = tokens[pos];
        match token.token_class {
            TokenClass::Op(op) => match infix_binding(op) {
                Some((left_bp, right_bp)) => {
                    if left_bp >= min_bp {
                        lemma_parse_expr(tokens, pos + 1, right_bp as int);
                        lemma_parse_expr_readable(tokens, pos + 1, right_bp as int);
                        let rhs = parse_expr_spec(tokens, pos + 1, right_bp as int);
                        if rhs.result is Ok {
                            lemma_climb_readable(
                                tokens,
                                rhs.pos,
                                SpecAstNode::BinaryExpr {
                                    token,
                                    left: Box::new(lhs),
                                    right: Box::new(rhs.result->Ok_0),
                                },
                                min_bp,
                            );
                        }
                    }
                },
                None => {},
            },
            _ => {},
        }
    }
}

/// A program parsed from readable tokens is a readable tree, if the items
/// before it were.
pub proof fn lemma_parse_program_readable(
    tokens: Seq<SpecToken>,
    pos: int,
    program: SpecAstNode,
)
    requires
        readable_tokens(tokens),
        readable_tree(program),
    ensures
        parse_program_spec(tokens, pos, program).result matches Ok(node) ==> readable_tree(node),
    decreases tokens.len() - pos,
{
    if 0 <= pos < tokens.len() && tokens[pos].token_class != TokenClass::Delim(DelimToken::EoF) {
        lemma_parse_item(tokens, pos);
        lemma_parse_expr_readable(tokens, pos, 0);
        lemma_parse_expr_readable(tokens, pos + 3, 0);
        let item = parse_item_spec(tokens, pos);
        if item.result is Ok {
            assert(readable_tree(item.result->Ok_0));
            lemma_parse_program_readable(tokens, item.pos, program.then_item(item.result->Ok_0));
        }
    }
}

/// Lowering a readable tree into a readable chunk gives a readable chunk.
pub proof fn lemma_emit_readable(node: SpecAstNode, chunk: SpecChunk)
    requires
        readable_tree(node),
        readable_chunk(chunk),
    ensures
        readable_chunk(emit(node, chunk).chunk),
    decreases node,
{
    match node {
        SpecAstNode::Sequence { first, second } => {
            lemma_emit_readable(*first, chunk);
            lemma_emit_readable(*second, emit(*first, chunk).chunk);
        },
        SpecAstNode::VariableAssignmentStmt { token, identifier, expression } => {
            lemma_emit_readable(*expression, chunk);
        },
        SpecAstNode::Expr { token, expr } => {
            lemma_emit_readable(*expr, chunk);
        },
        SpecAstNode::UnaryExpr { token, operand } => {
            lemma_emit_readable(*operand, chunk);
        },
        SpecAstNode::BinaryExpr { token, left, right } => {
            lemma_emit_readable(*left, chunk);
            lemma_emit_readable(*right, emit(*left, chunk).chunk);
        },
        _ => {},
    }
}

/// Every numeric constant of a chunk that was compiled from a text is a
/// numeral.
pub proof fn theorem_compiled_chunk_is_readable(input: Seq<char>)
    ensures
        compile_spec(input) matches Ok(chunk) ==> readable_chunk(chunk),
{
    let scan = lex_all(input);
    if scan.error is None {
        lemma_tokens_spelled_by_class(input, 0, 0, 0);
        lemma_parse_program_readable(scan.tokens, 0, SpecAstNode::Empty);
        if parse_spec(scan.tokens) is Ok {
            lemma_emit_readable(parse_spec(scan.tokens)->Ok_0, SpecChunk::empty());
        }
    }
}

/// A machine that holds readable numbers only hands its host readable
/// numbers only, as operands and as results, and holds readable numbers only
/// after its run and after the host's answer.
pub proof fn theorem_requests_are_readable(machine: Machine)
    requires
        machine.well_formed(),
        readable_machine(machine),
    ensures
        readable_machine(machine.run().machine),
        machine.run().outcome matches Ok(progress) ==> readable_progress(progress),
        forall|answer: u64| readable_machine(#[trigger] machine.run().machine.answered(answer)),
    decreases machine.chunk.code.len() + 1 - machine.ip,
{
    if !machine.at_end() {
        match machine.step() {
            Stepped::Next(next) => {
                assert(readable_value(machine.operand())) by {
                    let op = OpCode::decode(machine.chunk.code[machine.ip])->0;
                    if op.has_operand() {
                        assert(readable_value(
                            machine.chunk.constants[machine.chunk.code[machine.ip + 1] as int],
                        ));
                    }
                }
                assert(readable_machine(next));
                theorem_requests_are_readable(next);
            },
            Stepped::Awaiting(next, request) => {
                assert(readable_machine(next));
            },
            Stepped::Failed(next, err) => {
                assert(readable_machine(next));
            },
        }
    }
}

} // verus!
