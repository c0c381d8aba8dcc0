//! Lowering of syntax trees to bytecode.

pub mod chunk;
pub mod op_code;

use crate::compiler::chunk::{Chunk, SpecChunk};
use crate::compiler::op_code::{Number, OpCode, SpecNumber, SpecValue, Value};
use crate::lexer::{
    lex_all, Lexer, LexerError, OpToken, SpecLexerError, SpecToken, Token, TokenClass,
};
use crate::parser::ast::{AstNode, ParserError, SpecAstNode, SpecParserError};
use crate::parser::parser::{lemma_parse_yields_program, parse_spec, Parser};
use vstd::prelude::*;

verus! {

/// A tree that the compiler cannot lower. The parser builds no such tree.
#[derive(Debug, Clone, Copy, PartialEq, Eq, Structural)]
pub enum CompileError {
    /// A unary node whose operator is not `-`.
    UnsupportedToken,
    /// A binary node whose operator is none of `+ - * /`.
    UnsupportedBinaryOperator,
    /// A unary or binary node whose token is no operator.
    ExpectedOpNode,
}

/// Why a text did not compile: the stage that failed, and its error.
#[derive(Debug, PartialEq, Eq)]
pub enum CompilerError {
    Lexer(LexerError),
    Parser(ParserError),
    Compiler(CompileError),
}

/// The mathematical value of a [`CompilerError`].
pub enum SpecCompilerError {
    Lexer(SpecLexerError),
    Parser(SpecParserError),
    Compiler(CompileError),
}

impl View for CompilerError {
    type V = SpecCompilerError;

    open spec fn view(&self) -> SpecCompilerError {
        match self {
            CompilerError::Lexer(err) => SpecCompilerError::Lexer(err@),
            CompilerError::Parser(err) => SpecCompilerError::Parser(err@),
            CompilerError::Compiler(err) => SpecCompilerError::Compiler(*err),
        }
    }
}

/// What lowering a tree yields: the chunk with the code that was added to
/// it, and the error that stopped the lowering, if one did.
pub struct Emitted {
    pub chunk: SpecChunk,
    pub error: Option<CompileError>,
}

/// The operation of a unary node whose operator token is of class `class`.
pub open spec fn unary_op_code(class: TokenClass) -> Result<OpCode, CompileError> {
    match class {
        TokenClass::Op(OpToken::Min) => Ok(OpCode::Negate),
        TokenClass::Op(_) => Err(CompileError::UnsupportedToken),
        _ => Err(CompileError::ExpectedOpNode),
    }
}

/// The operation of a binary node whose operator token is of class `class`.
pub open spec fn binary_op_code(class: TokenClass) -> Result<OpCode, CompileError> {
    match class {
        TokenClass::Op(OpToken::Plus) => Ok(OpCode::Add),
        TokenClass::Op(OpToken::Min) => Ok(OpCode::Subtract),
        TokenClass::Op(OpToken::Star) => Ok(OpCode::Multiply),
        TokenClass::Op(OpToken::Slash) => Ok(OpCode::Divide),
        TokenClass::Op(_) => Err(CompileError::UnsupportedBinaryOperator),
        _ => Err(CompileError::ExpectedOpNode),
    }
}

/// `chunk` with the operation `op` and, as its operand, the new constant
/// `value`, both compiled from `token`.
pub open spec fn with_operand(chunk: SpecChunk, op: OpCode, value: SpecValue, token: SpecToken)
    -> SpecChunk {
    chunk.with_instruction(op, token).with_constant(value, token)
}

/// `chunk` with the operation for `op` compiled from `token`, or the error
/// that `op` is.
pub open spec fn with_operator(
    chunk: SpecChunk,
    op: Result<OpCode, CompileError>,
    token: SpecToken,
) -> Emitted {
    match op {
        Ok(op) => Emitted { chunk: chunk.with_instruction(op, token), error: None },
        Err(err) => Emitted { chunk, error: Some(err) },
    }
}

/// `chunk` with the code of `node` added, children before parents.
///
/// A literal becomes `Constant` over its numeral, a variable `GetVar` over
/// its name. An assignment is the code of its expression, then `SetVar` over
/// the name. A negation is the code of its operand, then `Negate`; a binary
/// node the code of its left operand, that of its right operand, then the
/// operation. A parenthesis is the code of what it holds, and a sequence the
/// code of its parts in order. Lowering stops at the first node that has no
/// operation, with what was added before it.
pub open spec fn emit(node: SpecAstNode, chunk: SpecChunk) -> Emitted
    decreases node,
{
    match node {
        SpecAstNode::Empty => Emitted { chunk, error: None },
        SpecAstNode::Sequence { first, second } => {
            let head = emit(*first, chunk);
            if head.error is Some {
                head
            } else {
                emit(*second, head.chunk)
            }
        },
        SpecAstNode::NumericLit { token, value } => Emitted {
            chunk: with_operand(
                chunk,
                OpCode::Constant,
                SpecValue::Number(SpecNumber::Literal(value)),
                token,
            ),
            error: None,
        },
        SpecAstNode::VariableAccessExpr { token, identifier } => Emitted {
            chunk: with_operand(chunk, OpCode::GetVar, SpecValue::String(identifier), token),
            error: None,
        },
        SpecAstNode::VariableAssignmentStmt { token, identifier, expression } => {
            let value = emit(*expression, chunk);
            if value.error is Some {
                value
            } else {
                Emitted {
                    chunk: with_operand(
                        value.chunk,
                        OpCode::SetVar,
                        SpecValue::String(identifier),
                        token,
                    ),
                    error: None,
                }
            }
        },
        SpecAstNode::Expr { token, expr } => emit(*expr, chunk),
        SpecAstNode::UnaryExpr { token, operand } => {
            let inner = emit(*operand, chunk);
            if inner.error is Some {
                inner
            } else {
                with_operator(inner.chunk, unary_op_code(token.token_class), token)
            }
        },
        SpecAstNode::BinaryExpr { token, left, right } => {
            let lhs = emit(*left, chunk);
            if lhs.error is Some {
                lhs
            } else {
                let rhs = emit(*right, lhs.chunk);
                if rhs.error is Some {
                    rhs
                } else {
                    with_operator(rhs.chunk, binary_op_code(token.token_class), token)
                }
            }
        },
    }
}

/// The chunk that a tree compiles to.
pub open spec fn compile_ast_spec(node: SpecAstNode) -> Result<SpecChunk, CompileError> {
    let emitted = emit(node, SpecChunk::empty());
    match emitted.error {
        None => Ok(emitted.chunk),
        Some(err) => Err(err),
    }
}

/// The chunk that a source text compiles to: the text is scanned, its tokens
/// are parsed, and the tree is lowered. The first stage that fails gives the
/// error.
pub open spec fn compile_spec(input: Seq<char>) -> Result<SpecChunk, SpecCompilerError> {
    let scan = lex_all(input);
    match scan.error {
        Some(err) => Err(SpecCompilerError::Lexer(err)),
        None => match parse_spec(scan.tokens) {
            Err(err) => Err(SpecCompilerError::Parser(err)),
            Ok(node) => match compile_ast_spec(node) {
                Err(err) => Err(SpecCompilerError::Compiler(err)),
                Ok(chunk) => Ok(chunk),
            },
        },
    }
}

/// `longer` holds the code and the constants of `shorter`, and perhaps more
/// after them.
pub open spec fn extends(longer: SpecChunk, shorter: SpecChunk) -> bool {
    &&& shorter.code.len() <= longer.code.len()
    &&& shorter.constants.len() <= longer.constants.len()
    &&& forall|i: int| 0 <= i < shorter.code.len() ==> longer.code[i] == shorter.code[i]
    &&& forall|i: int|
        0 <= i < shorter.constants.len() ==> longer.constants[i] == shorter.constants[i]
}

/// Lowering only adds to a chunk.
pub proof fn lemma_emit_extends(node: SpecAstNode, chunk: SpecChunk)
    ensures
        extends(emit(node, chunk).chunk, chunk),
    decreases node,
{
    match node {
        SpecAstNode::Sequence { first, second } => {
            lemma_emit_extends(*first, chunk);
            lemma_emit_extends(*second, emit(*first, chunk).chunk);
        },
        SpecAstNode::VariableAssignmentStmt { token, identifier, expression } => {
            lemma_emit_extends(*expression, chunk);
        },
        SpecAstNode::Expr { token, expr } => {
            lemma_emit_extends(*expr, chunk);
        },
        SpecAstNode::UnaryExpr { token, operand } => {
            lemma_emit_extends(*operand, chunk);
        },
        SpecAstNode::BinaryExpr { token, left, right } => {
            lemma_emit_extends(*left, chunk);
            lemma_emit_extends(*right, emit(*left, chunk).chunk);
        },
        _ => {},
    }
}

/// Lowering adds one constant for every number and name of the tree, and
/// fewer where it stops early.
pub proof fn lemma_emit_constants(node: SpecAstNode, chunk: SpecChunk)
    ensures
        emit(node, chunk).chunk.constants.len() <= chunk.constants.len() + node.atoms(),
        emit(node, chunk).error is None ==> emit(node, chunk).chunk.constants.len()
            == chunk.constants.len() + node.atoms(),
    decreases node,
{
    match node {
        SpecAstNode::Sequence { first, second } => {
            lemma_emit_constants(*first, chunk);
            lemma_emit_constants(*second, emit(*first, chunk).chunk);
        },
        SpecAstNode::VariableAssignmentStmt { token, identifier, expression } => {
            lemma_emit_constants(*expression, chunk);
        },
        SpecAstNode::Expr { token, expr } => {
            lemma_emit_constants(*expr, chunk);
        },
        SpecAstNode::UnaryExpr { token, operand } => {
            lemma_emit_constants(*operand, chunk);
        },
        SpecAstNode::BinaryExpr { token, left, right } => {
            lemma_emit_constants(*left, chunk);
            lemma_emit_constants(*right, emit(*left, chunk).chunk);
        },
        _ => {},
    }
}

/// A chunk that is framed from `ip` on stays so when whole instructions are
/// added at its end.
pub proof fn lemma_framed_extends(shorter: SpecChunk, longer: SpecChunk, ip: int)
    requires
        extends(longer, shorter),
        0 <= ip <= shorter.code.len(),
        shorter.framed_from(ip),
        longer.framed_from(shorter.code.len() as int),
    ensures
        longer.framed_from(ip),
    decreases shorter.code.len() - ip,
{
    if ip < shorter.code.len() {
        match OpCode::decode(shorter.code[ip]) {
            Some(op) => {
                if op.has_operand() {
                    lemma_framed_extends(shorter, longer, ip + 2);
                } else {
                    lemma_framed_extends(shorter, longer, ip + 1);
                }
            },
            None => {},
        }
    }
}

/// Adding an operation with its constant keeps a chunk well formed.
pub proof fn lemma_with_operand_well_formed(
    chunk: SpecChunk,
    op: OpCode,
    value: SpecValue,
    token: SpecToken,
)
    requires
        chunk.well_formed(),
        chunk.constants.len() < usize::MAX,
        op.has_operand(),
    ensures
        with_operand(chunk, op, value, token).well_formed(),
{
    let longer = with_operand(chunk, op, value, token);
    let end = chunk.code.len() as int;
    assert(longer.code[end] == op.word());
    assert(longer.code[end + 1] == chunk.constants.len());
    assert(longer.framed_from(end + 2));
    assert(longer.framed_from(end));
    lemma_framed_extends(chunk, longer, 0);
}

/// Adding an operation that takes no operand keeps a chunk well formed.
pub proof fn lemma_with_instruction_well_formed(chunk: SpecChunk, op: OpCode, token: SpecToken)
    requires
        chunk.well_formed(),
        !op.has_operand(),
    ensures
        chunk.with_instruction(op, token).well_formed(),
{
    let longer = chunk.with_instruction(op, token);
    let end = chunk.code.len() as int;
    assert(longer.code[end] == op.word());
    assert(longer.framed_from(end + 1));
    assert(longer.framed_from(end));
    lemma_framed_extends(chunk, longer, 0);
}

/// Lowering keeps a chunk well formed, as long as machine words can index
/// its constants.
pub proof fn lemma_emit_well_formed(node: SpecAstNode, chunk: SpecChunk)
    requires
        chunk.well_formed(),
        emit(node, chunk).chunk.constants.len() <= usize::MAX,
    ensures
        emit(node, chunk).chunk.well_formed(),
    decreases node,
{
    lemma_emit_extends(node, chunk);
    match node {
        SpecAstNode::Empty => {},
        SpecAstNode::Sequence { first, second } => {
            let head = emit(*first, chunk);
            lemma_emit_extends(*second, head.chunk);
            lemma_emit_well_formed(*first, chunk);
            if head.error is None {
                lemma_emit_well_formed(*second, head.chunk);
            }
        },
        SpecAstNode::NumericLit { token, value } => {
            lemma_with_operand_well_formed(
                chunk,
                OpCode::Constant,
                SpecValue::Number(SpecNumber::Literal(value)),
                token,
            );
        },
        SpecAstNode::VariableAccessExpr { token, identifier } => {
            lemma_with_operand_well_formed(
                chunk,
                OpCode::GetVar,
                SpecValue::String(identifier),
                token,
            );
        },
        SpecAstNode::VariableAssignmentStmt { token, identifier, expression } => {
            let value = emit(*expression, chunk);
            lemma_emit_extends(*expression, chunk);
            lemma_emit_well_formed(*expression, chunk);
            if value.error is None {
                lemma_with_operand_well_formed(
                    value.chunk,
                    OpCode::SetVar,
                    SpecValue::String(identifier),
                    token,
                );
            }
        },
        SpecAstNode::Expr { token, expr } => {
            lemma_emit_well_formed(*expr, chunk);
        },
        SpecAstNode::UnaryExpr { token, operand } => {
            let inner = emit(*operand, chunk);
            lemma_emit_well_formed(*operand, chunk);
            if inner.error is None && unary_op_code(token.token_class) is Ok {
                lemma_with_instruction_well_formed(
                    inner.chunk,
                    unary_op_code(token.token_class)->Ok_0,
                    token,
                );
            }
        },
        SpecAstNode::BinaryExpr { token, left, right } => {
            let lhs = emit(*left, chunk);
            lemma_emit_extends(*right, lhs.chunk);
            lemma_emit_well_formed(*left, chunk);
            if lhs.error is None {
                let rhs = emit(*right, lhs.chunk);
                lemma_emit_well_formed(*right, lhs.chunk);
                if rhs.error is None && binary_op_code(token.token_class) is Ok {
                    lemma_with_instruction_well_formed(
                        rhs.chunk,
                        binary_op_code(token.token_class)->Ok_0,
                        token,
                    );
                }
            }
        },
    }
}

/// The trees that the parser builds all have code: lowering a program tree
/// does not fail.
pub proof fn lemma_program_compiles(node: SpecAstNode, chunk: SpecChunk)
    requires
        node.is_program() || node.is_expression(),
    ensures
        emit(node, chunk).error is None,
    decreases node,
{
    match node {
        SpecAstNode::Sequence { first, second } => {
            lemma_program_compiles(*first, chunk);
            lemma_program_compiles(*second, emit(*first, chunk).chunk);
        },
        SpecAstNode::VariableAssignmentStmt { token, identifier, expression } => {
            lemma_program_compiles(*expression, chunk);
        },
        SpecAstNode::Expr { token, expr } => {
            lemma_program_compiles(*expr, chunk);
        },
        SpecAstNode::UnaryExpr { token, operand } => {
            lemma_program_compiles(*operand, chunk);
        },
        SpecAstNode::BinaryExpr { token, left, right } => {
            lemma_program_compiles(*left, chunk);
            lemma_program_compiles(*right, emit(*left, chunk).chunk);
        },
        _ => {},
    }
}

/// A text that scans and parses compiles: its tree has code all over.
pub proof fn lemma_parsed_text_compiles(input: Seq<char>)
    ensures
        !(compile_spec(input) matches Err(SpecCompilerError::Compiler(_))),
{
    let tokens = lex_all(input).tokens;
    lemma_parse_yields_program(tokens);
    if parse_spec(tokens) is Ok {
        lemma_program_compiles(parse_spec(tokens)->Ok_0, SpecChunk::empty());
    }
}

/// The compiler, with the chunk that it compiled last.
pub struct Compiler {
    chunk: Chunk,
}

impl View for Compiler {
    type V = SpecChunk;

    closed spec fn view(&self) -> SpecChunk {
        self.chunk@
    }
}

impl Compiler {
    /// A compiler that holds the empty chunk.
    pub fn new() -> (compiler: Compiler)
        ensures
            compiler@ == SpecChunk::empty(),
            compiler@.well_formed(),
    {
        Compiler { chunk: Chunk::new() }
    }

    /// Compiles a source text. The chunk replaces the one that the compiler
    /// held before, unless the text does not scan or parse: the compiler then
    /// keeps the chunk it held. A text that parses compiles.
    pub fn compile(&mut self, input: String) -> (compiled: Result<&Chunk, CompilerError>)
        ensures
            match compile_spec(input@) {
                Ok(chunk) => compiled is Ok && compiled->Ok_0@ == chunk && final(self)@ == chunk,
                Err(err) => compiled is Err && compiled->Err_0@ == err && final(self)@ == old(
                    self
                )@,
            },
            !(compiled matches Err(CompilerError::Compiler(_))),
            old(self)@.well_formed() ==> final(self)@.well_formed(),
    {
        proof {
            lemma_parsed_text_compiles(input@);
        }
        let mut lexer = Lexer::new(input);
        match lexer.tokenize() {
            Err(err) => {
                return Err(CompilerError::Lexer(err));
            },
            Ok(_) => {},
        }
        assert(lexer@.tokens =~= lex_all(input@).tokens);

        let mut parser = Parser::new(lexer.tokens());
        let ast = match parser.parse() {
            Err(err) => {
                return Err(CompilerError::Parser(err));
            },
            Ok(ast) => ast,
        };

        self.chunk = Chunk::new();
        match self.compile_ast(&ast) {
            Ok(()) => Ok(&self.chunk),
            Err(err) => Err(CompilerError::Compiler(err)),
        }
    }

    /// The chunk that was compiled last.
    pub fn into_chunk(self) -> (chunk: Chunk)
        ensures
            chunk@ == self@,
    {
        self.chunk
    }

    fn add_instruction(&mut self, op_code: OpCode, token: &Token)
        ensures
            final(self)@ == old(self)@.with_instruction(op_code, token@),
    {
        self.chunk.code.push(op_code.to_usize());
        self.chunk.tokens.push(token.clone());
        assert(final(self)@.tokens =~= old(self)@.tokens.push(token@));
        assert(final(self)@.constants =~= old(self)@.constants);
    }

    fn add_constant(&mut self, value: Value, token: &Token)
        ensures
            final(self)@ == old(self)@.with_constant(value@, token@),
    {
        self.chunk.code.push(self.chunk.constants.len());
        self.chunk.constants.push(value);
        self.chunk.tokens.push(token.clone());
        assert(final(self)@.tokens =~= old(self)@.tokens.push(token@));
        assert(final(self)@.constants =~= old(self)@.constants.push(value@));
    }

    /// Adds the code of a tree to the chunk. Where the tree has a node
    /// without code, the code of what comes before that node has been added.
    pub fn compile_ast(&mut self, ast_node: &Box<AstNode>) -> (done: Result<(), CompileError>)
        ensures
            final(self)@ == emit(ast_node.model(), old(self)@).chunk,
            match done {
                Ok(_) => emit(ast_node.model(), old(self)@).error is None,
                Err(err) => emit(ast_node.model(), old(self)@).error == Some(err),
            },
            old(self)@.well_formed() ==> final(self)@.well_formed(),
    {
        let done = self.lower(ast_node);
        proof {
            assert(self.chunk@.constants.len() == self.chunk.constants.len());
            if old(self)@.well_formed() {
                lemma_emit_well_formed(ast_node.model(), old(self)@);
            }
        }
        done
    }

    /// Adds the code of a tree to the chunk, children before parents.
    fn lower(&mut self, ast_node: &Box<AstNode>) -> (done: Result<(), CompileError>)
        ensures
            final(self)@ == emit(ast_node.model(), old(self)@).chunk,
            match done {
                Ok(_) => emit(ast_node.model(), old(self)@).error is None,
                Err(err) => emit(ast_node.model(), old(self)@).error == Some(err),
            },
        decreases ast_node,
    {
        match &**ast_node {
            AstNode::Empty => {},
            AstNode::Sequence { first, second } => {
                match self.lower(first) {
                    Ok(_) => {},
                    Err(err) => {
                        return Err(err);
                    },
                }
                match self.lower(second) {
                    Ok(_) => {},
                    Err(err) => {
                        return Err(err);
                    },
                }
            },
            AstNode::NumericLit { token, value } => {
                self.add_instruction(OpCode::Constant, token);
                self.add_constant(Value::Number(Number::Literal(value.clone())), token);
            },
            AstNode::VariableAccessExpr { token, identifier } => {
                self.add_instruction(OpCode::GetVar, token);
                self.add_constant(Value::String(identifier.clone()), token);
            },
            AstNode::VariableAssignmentStmt { token, identifier, expression } => {
                match self.lower(expression) {
                    Ok(_) => {},
                    Err(err) => {
                        return Err(err);
                    },
                }
                self.add_instruction(OpCode::SetVar, token);
                self.add_constant(Value::String(identifier.clone()), token);
            },
            AstNode::Expr { expr, .. } => {
                match self.lower(expr) {
                    Ok(_) => {},
                    Err(err) => {
                        return Err(err);
                    },
                }
            },
            AstNode::UnaryExpr { token, operand } => {
                match self.lower(operand) {
                    Ok(_) => {},
                    Err(err) => {
                        return Err(err);
                    },
                }

                match token.token_class {
                    TokenClass::Op(op) => match op {
                        OpToken::Min => self.add_instruction(OpCode::Negate, token),
                        _ => {
                            return Err(CompileError::UnsupportedToken);
                        },
                    },
                    _ => {
                        return Err(CompileError::ExpectedOpNode);
                    },
                }
            },
            AstNode::BinaryExpr { token, left, right } => {
                match self.lower(left) {
                    Ok(_) => {},
                    Err(err) => {
                        return Err(err);
                    },
                }
                match self.lower(right) {
                    Ok(_) => {},
                    Err(err) => {
                        return Err(err);
                    },
                }

                match token.token_class {
                    TokenClass::Op(op) => match op {
                        OpToken::Plus => self.add_instruction(OpCode::Add, token),
                        OpToken::Min => self.add_instruction(OpCode::Subtract, token),
                        OpToken::Star => self.add_instruction(OpCode::Multiply, token),
                        OpToken::Slash => self.add_instruction(OpCode::Divide, token),
                        _ => {
                            return Err(CompileError::UnsupportedBinaryOperator);
                        },
                    },
                    _ => {
                        return Err(CompileError::ExpectedOpNode);
                    },
                }
            },
        }

        Ok(())
    }
}

} // verus!
