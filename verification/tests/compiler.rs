use pratt_vm::compiler::chunk::Chunk;
use pratt_vm::compiler::op_code::{Number, OpCode, Value};
use pratt_vm::compiler::{CompileError, Compiler, CompilerError};
use pratt_vm::lexer::{
    AtomToken, DelimToken, LexerError, OpToken, Token, TokenClass, TokenMeta,
};
use pratt_vm::parser::ast::{AstNode, ParserError};

fn compile(text: &str) -> Result<Chunk, CompilerError> {
    let mut compiler = Compiler::new();
    compiler.compile(text.to_string())?;
    Ok(compiler.into_chunk())
}

fn token(token_class: TokenClass, lexeme: &str, col: usize) -> Token {
    Token { token_class, lexeme: lexeme.to_string(), meta: TokenMeta { row: 0, col } }
}

fn numeral(text: &str) -> Value {
    Value::Number(Number::Literal(text.to_string()))
}

fn name(text: &str) -> Value {
    Value::String(text.to_string())
}

fn num(lexeme: &str, col: usize) -> Box<AstNode> {
    Box::new(AstNode::NumericLit {
        token: token(TokenClass::Atom(AtomToken::NumericLit), lexeme, col),
        value: lexeme.to_string(),
    })
}

#[test]
fn words_of_the_operations() {
    assert_eq!(OpCode::Constant.to_usize(), 0);
    assert_eq!(OpCode::Add.to_usize(), 1);
    assert_eq!(OpCode::Subtract.to_usize(), 2);
    assert_eq!(OpCode::Multiply.to_usize(), 3);
    assert_eq!(OpCode::Divide.to_usize(), 4);
    assert_eq!(OpCode::Negate.to_usize(), 5);
    assert_eq!(OpCode::SetVar.to_usize(), 6);
    assert_eq!(OpCode::GetVar.to_usize(), 7);
}

#[test]
fn operations_of_the_words() {
    assert_eq!(OpCode::from_usize(0), Some(OpCode::Constant));
    assert_eq!(OpCode::from_usize(1), Some(OpCode::Add));
    assert_eq!(OpCode::from_usize(2), Some(OpCode::Subtract));
    assert_eq!(OpCode::from_usize(3), Some(OpCode::Multiply));
    assert_eq!(OpCode::from_usize(4), Some(OpCode::Divide));
    assert_eq!(OpCode::from_usize(5), Some(OpCode::Negate));
    assert_eq!(OpCode::from_usize(6), Some(OpCode::SetVar));
    assert_eq!(OpCode::from_usize(7), Some(OpCode::GetVar));
    assert_eq!(OpCode::from_usize(8), None);
    assert_eq!(OpCode::from_usize(usize::MAX), None);
}

#[test]
fn every_operation_is_recovered_from_its_word() {
    for word in 0..8 {
        assert_eq!(OpCode::from_usize(word).map(|op| op.to_usize()), Some(word));
    }
}

#[test]
fn a_new_chunk_is_empty() {
    let chunk = Chunk::new();
    assert_eq!(chunk.code, Vec::<usize>::new());
    assert_eq!(chunk.constants, Vec::<Value>::new());
    assert_eq!(chunk.tokens, Vec::<Token>::new());
    assert!(chunk.is_well_formed());
    assert_eq!(Compiler::new().into_chunk(), chunk);
}

#[test]
fn an_empty_text_does_not_compile() {
    assert_eq!(
        compile(""),
        Err(CompilerError::Parser(ParserError::UnhandledToken {
            token: token(TokenClass::Delim(DelimToken::EoF), "", 0),
        }))
    );
}

#[test]
fn the_empty_tree_has_no_code() {
    let mut compiler = Compiler::new();
    assert_eq!(compiler.compile_ast(&Box::new(AstNode::Empty)), Ok(()));
    assert_eq!(compiler.into_chunk(), Chunk::new());
}

#[test]
fn a_chunk_without_its_tokens_is_framed() {
    let chunk = Chunk { code: vec![0, 0, 5], constants: vec![numeral("1")], tokens: vec![] };
    assert!(chunk.is_framed());
    assert!(!chunk.is_well_formed());
    let chunk = Chunk { code: vec![0, 1, 5], constants: vec![numeral("1")], tokens: vec![] };
    assert!(!chunk.is_framed());
    assert!(Chunk::new().is_framed());
}

#[test]
fn code_of_a_sum() {
    let chunk = compile("1 + 2").unwrap();
    assert_eq!(chunk.code, vec![0, 0, 0, 1, 1]);
    assert_eq!(chunk.constants, vec![numeral("1"), numeral("2")]);
    let one = token(TokenClass::Atom(AtomToken::NumericLit), "1", 0);
    let two = token(TokenClass::Atom(AtomToken::NumericLit), "2", 4);
    let plus = token(TokenClass::Op(OpToken::Plus), "+", 2);
    assert_eq!(chunk.tokens, vec![one.clone(), one, two.clone(), two, plus]);
    assert!(chunk.is_well_formed());
}

#[test]
fn code_of_each_operator() {
    assert_eq!(compile("1 - 2").unwrap().code, vec![0, 0, 0, 1, 2]);
    assert_eq!(compile("1 * 2").unwrap().code, vec![0, 0, 0, 1, 3]);
    assert_eq!(compile("1 / 2").unwrap().code, vec![0, 0, 0, 1, 4]);
    assert_eq!(compile("-1").unwrap().code, vec![0, 0, 5]);
}

#[test]
fn code_of_an_assignment() {
    let chunk = compile("let x = 5;").unwrap();
    assert_eq!(chunk.code, vec![0, 0, 6, 1]);
    assert_eq!(chunk.constants, vec![numeral("5"), name("x")]);
    let five = token(TokenClass::Atom(AtomToken::NumericLit), "5", 8);
    let x = token(TokenClass::Atom(AtomToken::Identifier), "x", 4);
    assert_eq!(chunk.tokens, vec![five.clone(), five, x.clone(), x]);
}

#[test]
fn code_of_a_variable() {
    let chunk = compile("x").unwrap();
    assert_eq!(chunk.code, vec![7, 0]);
    assert_eq!(chunk.constants, vec![name("x")]);
}

#[test]
fn a_parenthesis_has_no_code_of_its_own() {
    assert_eq!(compile("(1)"), compile(" 1 "));
    let chunk = compile("-(3 - 1);").unwrap();
    assert_eq!(chunk.code, vec![0, 0, 0, 1, 2, 5]);
    assert_eq!(chunk.constants, vec![numeral("3"), numeral("1")]);
}

#[test]
fn code_of_a_sequence() {
    let chunk = compile("let x = 5; x + 1;").unwrap();
    assert_eq!(chunk.code, vec![0, 0, 6, 1, 7, 2, 0, 3, 1]);
    assert_eq!(chunk.constants, vec![numeral("5"), name("x"), name("x"), numeral("1")]);
    assert_eq!(chunk.tokens.len(), chunk.code.len());
    assert!(chunk.is_well_formed());
}

#[test]
fn operands_come_before_their_operation() {
    let chunk = compile("1 + 2 * 3;").unwrap();
    assert_eq!(chunk.code, vec![0, 0, 0, 1, 0, 2, 3, 1]);
    let chunk = compile("1 - 2 * 3").unwrap();
    assert_eq!(chunk.code, vec![0, 0, 0, 1, 2, 0, 2, 3]);
}

#[test]
fn a_text_that_does_not_scan() {
    assert_eq!(
        compile("1 + #"),
        Err(CompilerError::Lexer(LexerError::UnexpectedCharacter {
            char: "#".to_string(),
            meta: TokenMeta { row: 0, col: 4 },
        }))
    );
}

#[test]
fn a_text_that_does_not_parse() {
    assert_eq!(
        compile("(1"),
        Err(CompilerError::Parser(ParserError::UnclosedExpression {
            token: token(TokenClass::Op(OpToken::LeftParen), "(", 0),
        }))
    );
}

#[test]
fn the_compiler_keeps_its_chunk_when_the_text_does_not_parse() {
    let mut compiler = Compiler::new();
    assert!(compiler.compile("1 + 2".to_string()).is_ok());
    assert!(compiler.compile("1 +".to_string()).is_err());
    assert!(compiler.compile("#".to_string()).is_err());
    assert_eq!(compiler.into_chunk().code, vec![0, 0, 0, 1, 1]);
}

#[test]
fn a_new_text_replaces_the_chunk() {
    let mut compiler = Compiler::new();
    assert!(compiler.compile("1 + 2".to_string()).is_ok());
    assert_eq!(compiler.compile("x".to_string()).map(|chunk| chunk.code.clone()), Ok(vec![7, 0]));
    assert_eq!(compiler.into_chunk().constants, vec![name("x")]);
}

#[test]
fn a_tree_is_added_to_the_chunk() {
    let mut compiler = Compiler::new();
    assert_eq!(compiler.compile_ast(&num("1", 0)), Ok(()));
    assert_eq!(compiler.compile_ast(&num("2", 2)), Ok(()));
    let chunk = compiler.into_chunk();
    assert_eq!(chunk.code, vec![0, 0, 0, 1]);
    assert_eq!(chunk.constants, vec![numeral("1"), numeral("2")]);
}

#[test]
fn a_unary_node_with_another_operator_is_unsupported() {
    let mut compiler = Compiler::new();
    let tree = Box::new(AstNode::UnaryExpr {
        token: token(TokenClass::Op(OpToken::Plus), "+", 0),
        operand: num("1", 1),
    });
    assert_eq!(compiler.compile_ast(&tree), Err(CompileError::UnsupportedToken));
    assert_eq!(compiler.into_chunk().code, vec![0, 0]);
}

#[test]
fn a_unary_node_without_an_operator_token() {
    let mut compiler = Compiler::new();
    let tree = Box::new(AstNode::UnaryExpr {
        token: token(TokenClass::Atom(AtomToken::Identifier), "x", 0),
        operand: num("1", 1),
    });
    assert_eq!(compiler.compile_ast(&tree), Err(CompileError::ExpectedOpNode));
}

#[test]
fn a_binary_node_with_another_operator_is_unsupported() {
    let mut compiler = Compiler::new();
    let tree = Box::new(AstNode::BinaryExpr {
        token: token(TokenClass::Op(OpToken::Eq), "=", 1),
        left: num("1", 0),
        right: num("2", 2),
    });
    assert_eq!(compiler.compile_ast(&tree), Err(CompileError::UnsupportedBinaryOperator));
    let chunk = compiler.into_chunk();
    assert_eq!(chunk.code, vec![0, 0, 0, 1]);
    assert!(chunk.is_well_formed());
}

#[test]
fn a_binary_node_without_an_operator_token() {
    let mut compiler = Compiler::new();
    let tree = Box::new(AstNode::BinaryExpr {
        token: token(TokenClass::Atom(AtomToken::NumericLit), "3", 1),
        left: num("1", 0),
        right: num("2", 2),
    });
    assert_eq!(compiler.compile_ast(&tree), Err(CompileError::ExpectedOpNode));
}

#[test]
fn the_first_node_without_code_stops_the_lowering() {
    let mut compiler = Compiler::new();
    let bad = Box::new(AstNode::UnaryExpr {
        token: token(TokenClass::Op(OpToken::Star), "*", 0),
        operand: num("1", 1),
    });
    let tree = Box::new(AstNode::BinaryExpr {
        token: token(TokenClass::Atom(AtomToken::NumericLit), "3", 1),
        left: bad,
        right: num("2", 2),
    });
    assert_eq!(compiler.compile_ast(&tree), Err(CompileError::UnsupportedToken));
    assert_eq!(compiler.into_chunk().code, vec![0, 0]);
}

#[test]
fn chunks_that_are_not_well_formed() {
    let one = token(TokenClass::Atom(AtomToken::NumericLit), "1", 0);
    let missing_operand =
        Chunk { code: vec![0], constants: vec![numeral("1")], tokens: vec![one.clone()] };
    assert!(!missing_operand.is_well_formed());
    let operand_out_of_range = Chunk {
        code: vec![0, 1],
        constants: vec![numeral("1")],
        tokens: vec![one.clone(), one.clone()],
    };
    assert!(!operand_out_of_range.is_well_formed());
    let missing_token =
        Chunk { code: vec![0, 0], constants: vec![numeral("1")], tokens: vec![one.clone()] };
    assert!(!missing_token.is_well_formed());
    let late_fault = Chunk {
        code: vec![5, 1, 7],
        constants: vec![],
        tokens: vec![one.clone(), one.clone(), one.clone()],
    };
    assert!(!late_fault.is_well_formed());
}

#[test]
fn chunks_that_are_well_formed() {
    let one = token(TokenClass::Atom(AtomToken::NumericLit), "1", 0);
    let unknown_word = Chunk { code: vec![99], constants: vec![], tokens: vec![one.clone()] };
    assert!(unknown_word.is_well_formed());
    let nothing_is_read_after_an_unknown_word = Chunk {
        code: vec![5, 99, 0],
        constants: vec![],
        tokens: vec![one.clone(), one.clone(), one.clone()],
    };
    assert!(nothing_is_read_after_an_unknown_word.is_well_formed());
    let operations_only = Chunk {
        code: vec![1, 2, 3, 4, 5],
        constants: vec![],
        tokens: vec![one.clone(), one.clone(), one.clone(), one.clone(), one],
    };
    assert!(operations_only.is_well_formed());
}
