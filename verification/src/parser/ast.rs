//! The syntax tree and the errors of parsing.

use crate::lexer::{OpToken, SpecToken, Token, TokenClass};
use vstd::prelude::*;

verus! {

/// Why a token stream is no program.
#[derive(Debug, PartialEq, Eq)]
pub enum ParserError {
    /// A token was asked for past the end of the stream.
    UnexpectedEndOfTokenStream,
    /// An expression is followed by something other than `;` or the end of
    /// the input.
    ExpectedEoF { token: Token },
    ExpectedExpression { token: Token },
    /// An operand is followed by something that is neither an operator nor a
    /// delimiter.
    ExpectedOpToken { token: Token },
    /// The parenthesis `token` is not closed.
    UnclosedExpression { token: Token },
    /// `token` stands where `expected` had to stand or, with no `expected`,
    /// where an operand had to begin.
    UnexpectedToken { token: Token, expected: Option<TokenClass> },
    /// An operator other than `-` and `(` stands where an operand had to begin.
    UnexpectedUnaryOperator { token: Token },
    /// `token` begins neither a statement nor an expression.
    UnhandledToken { token: Token },
}

/// The mathematical value of a [`ParserError`].
pub enum SpecParserError {
    UnexpectedEndOfTokenStream,
    ExpectedEoF { token: SpecToken },
    ExpectedExpression { token: SpecToken },
    ExpectedOpToken { token: SpecToken },
    UnclosedExpression { token: SpecToken },
    UnexpectedToken { token: SpecToken, expected: Option<TokenClass> },
    UnexpectedUnaryOperator { token: SpecToken },
    UnhandledToken { token: SpecToken },
}

impl View for ParserError {
    type V = SpecParserError;

    open spec fn view(&self) -> SpecParserError {
        match self {
            ParserError::UnexpectedEndOfTokenStream => SpecParserError::UnexpectedEndOfTokenStream,
            ParserError::ExpectedEoF { token } => SpecParserError::ExpectedEoF { token: token@ },
            ParserError::ExpectedExpression { token } => SpecParserError::ExpectedExpression {
                token: token@,
            },
            ParserError::ExpectedOpToken { token } => SpecParserError::ExpectedOpToken {
                token: token@,
            },
            ParserError::UnclosedExpression { token } => SpecParserError::UnclosedExpression {
                token: token@,
            },
            ParserError::UnexpectedToken { token, expected } => SpecParserError::UnexpectedToken {
                token: token@,
                expected: *expected,
            },
            ParserError::UnexpectedUnaryOperator { token } => {
                SpecParserError::UnexpectedUnaryOperator { token: token@ }
            },
            ParserError::UnhandledToken { token } => SpecParserError::UnhandledToken {
                token: token@,
            },
        }
    }
}

impl Clone for ParserError {
    fn clone(&self) -> (copy: Self)
        ensures
            copy == *self,
    {
        match self {
            ParserError::UnexpectedEndOfTokenStream => ParserError::UnexpectedEndOfTokenStream,
            ParserError::ExpectedEoF { token } => ParserError::ExpectedEoF { token: token.clone() },
            ParserError::ExpectedExpression { token } => ParserError::ExpectedExpression {
                token: token.clone(),
            },
            ParserError::ExpectedOpToken { token } => ParserError::ExpectedOpToken {
                token: token.clone(),
            },
            ParserError::UnclosedExpression { token } => ParserError::UnclosedExpression {
                token: token.clone(),
            },
            ParserError::UnexpectedToken { token, expected } => ParserError::UnexpectedToken {
                token: token.clone(),
                expected: *expected,
            },
            ParserError::UnexpectedUnaryOperator { token } => ParserError::UnexpectedUnaryOperator {
                token: token.clone(),
            },
            ParserError::UnhandledToken { token } => ParserError::UnhandledToken {
                token: token.clone(),
            },
        }
    }
}

/// A syntax tree. Every node owns its children.
#[derive(Debug, PartialEq, Eq)]
pub enum AstNode {
    /// The tree without items. The parser starts from it and yields none:
    /// a program has an item.
    Empty,
    /// The items of `first`, then the item `second`.
    Sequence { first: Box<AstNode>, second: Box<AstNode> },
    /// `let identifier = expression;`
    VariableAssignmentStmt { token: Token, identifier: String, expression: Box<AstNode> },
    /// `( expr )`; `token` is the opening parenthesis.
    Expr { token: Token, expr: Box<AstNode> },
    BinaryExpr { token: Token, left: Box<AstNode>, right: Box<AstNode> },
    UnaryExpr { token: Token, operand: Box<AstNode> },
    /// A numeric literal; `value` is its numeral, as written.
    NumericLit { token: Token, value: String },
    VariableAccessExpr { token: Token, identifier: String },
}

/// The mathematical value of an [`AstNode`].
pub enum SpecAstNode {
    Empty,
    Sequence { first: Box<SpecAstNode>, second: Box<SpecAstNode> },
    VariableAssignmentStmt {
        token: SpecToken,
        identifier: Seq<char>,
        expression: Box<SpecAstNode>,
    },
    Expr { token: SpecToken, expr: Box<SpecAstNode> },
    BinaryExpr { token: SpecToken, left: Box<SpecAstNode>, right: Box<SpecAstNode> },
    UnaryExpr { token: SpecToken, operand: Box<SpecAstNode> },
    NumericLit { token: SpecToken, value: Seq<char> },
    VariableAccessExpr { token: SpecToken, identifier: Seq<char> },
}

impl AstNode {
    /// The mathematical value of the tree.
    pub open spec fn model(&self) -> SpecAstNode
        decreases self,
    {
        match self {
            AstNode::Empty => SpecAstNode::Empty,
            AstNode::Sequence { first, second } => SpecAstNode::Sequence {
                first: Box::new(first.model()),
                second: Box::new(second.model()),
            },
            AstNode::VariableAssignmentStmt { token, identifier, expression } => {
                SpecAstNode::VariableAssignmentStmt {
                    token: token@,
                    identifier: identifier@,
                    expression: Box::new(expression.model()),
                }
            },
            AstNode::Expr { token, expr } => SpecAstNode::Expr {
                token: token@,
                expr: Box::new(expr.model()),
            },
            AstNode::BinaryExpr { token, left, right } => SpecAstNode::BinaryExpr {
                token: token@,
                left: Box::new(left.model()),
                right: Box::new(right.model()),
            },
            AstNode::UnaryExpr { token, operand } => SpecAstNode::UnaryExpr {
                token: token@,
                operand: Box::new(operand.model()),
            },
            AstNode::NumericLit { token, value } => SpecAstNode::NumericLit {
                token: token@,
                value: value@,
            },
            AstNode::VariableAccessExpr { token, identifier } => SpecAstNode::VariableAccessExpr {
                token: token@,
                identifier: identifier@,
            },
        }
    }
}

impl View for AstNode {
    type V = SpecAstNode;

    open spec fn view(&self) -> SpecAstNode {
        self.model()
    }
}

impl SpecAstNode {
    /// Whether the operator of a binary node is one of `+ - * /`.
    pub open spec fn is_arithmetic(class: TokenClass) -> bool {
        class == TokenClass::Op(OpToken::Plus) || class == TokenClass::Op(OpToken::Min) || class
            == TokenClass::Op(OpToken::Star) || class == TokenClass::Op(OpToken::Slash)
    }

    /// The tree is an expression: a literal, a variable, a negation, a
    /// parenthesis or an arithmetic operation, over expressions.
    pub open spec fn is_expression(self) -> bool
        decreases self,
    {
        match self {
            SpecAstNode::NumericLit { token, value } => true,
            SpecAstNode::VariableAccessExpr { token, identifier } => true,
            SpecAstNode::UnaryExpr { token, operand } => token.token_class == TokenClass::Op(
                OpToken::Min,
            ) && operand.is_expression(),
            SpecAstNode::Expr { token, expr } => expr.is_expression(),
            SpecAstNode::BinaryExpr { token, left, right } => Self::is_arithmetic(
                token.token_class,
            ) && left.is_expression() && right.is_expression(),
            _ => false,
        }
    }

    /// The tree is one item of a program: an expression, or the assignment
    /// of an expression.
    pub open spec fn is_item(self) -> bool {
        match self {
            SpecAstNode::VariableAssignmentStmt { token, identifier, expression } => {
                expression.is_expression()
            },
            _ => self.is_expression(),
        }
    }

    /// The tree is a program: one item, or a program followed by one more
    /// item.
    pub open spec fn is_program(self) -> bool
        decreases self,
    {
        match self {
            SpecAstNode::Sequence { first, second } => first.is_program() && second.is_item(),
            _ => self.is_item(),
        }
    }

    /// How many numbers and names the tree holds: its literals, the
    /// variables it reads and the variables it writes.
    pub open spec fn atoms(self) -> nat
        decreases self,
    {
        match self {
            SpecAstNode::Empty => 0,
            SpecAstNode::Sequence { first, second } => first.atoms() + second.atoms(),
            SpecAstNode::VariableAssignmentStmt { token, identifier, expression } => 1
                + expression.atoms(),
            SpecAstNode::Expr { token, expr } => expr.atoms(),
            SpecAstNode::BinaryExpr { token, left, right } => left.atoms() + right.atoms(),
            SpecAstNode::UnaryExpr { token, operand } => operand.atoms(),
            SpecAstNode::NumericLit { token, value } => 1,
            SpecAstNode::VariableAccessExpr { token, identifier } => 1,
        }
    }

    /// The program `self` with `item` after it.
    pub open spec fn then_item(self, item: SpecAstNode) -> SpecAstNode {
        if self is Empty {
            item
        } else {
            SpecAstNode::Sequence { first: Box::new(self), second: Box::new(item) }
        }
    }
}

} // verus!
