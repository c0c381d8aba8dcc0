//! A Pratt parser over the tokens of the lexer.
//!
//! ```text
//! program    := item { item } end-of-input
//! item       := statement | expression ";" | expression    (the last before end-of-input only)
//! statement  := "let" identifier "=" expression ";"
//! expression := an operand, then operators and operands by binding power
//! operand    := NUMBER | IDENTIFIER | "-" expression | "(" expression ")"
//! ```
//!
//! A program has at least one item: a text without any is an error, as is
//! every token that begins neither a statement nor an expression.
//!
//! The parser fails fast: the first error ends the parse and is returned.
//! [`Parser::recover`] is there for a caller that wants to go on after one.

use crate::lexer::{
    spec_tokens,
    AtomToken,
    DelimToken,
    KeywordToken,
    OpToken,
    SpecToken,
    Token,
    TokenClass,
};
use crate::parser::ast::{AstNode, ParserError, SpecAstNode, SpecParserError};
use vstd::prelude::*;

verus! {

/// What a parse returns: the tree, or the first error.
pub type ParseResult = Result<Box<AstNode>, ParserError>;

/// The mathematical value of a [`ParseResult`].
pub open spec fn spec_result(parsed: ParseResult) -> Result<SpecAstNode, SpecParserError> {
    match parsed {
        Ok(node) => Ok(node.model()),
        Err(err) => Err(err@),
    }
}

/// The left and right binding powers of an infix operator, in tenths.
///
/// An operator goes into the right operand of the operator before it if its
/// left power is at least the right power of that one. So `*` goes into the
/// right operand of `/` and of `+`, and `8 / 2 * 2` is `8 / (2 * 2)`. Each of
/// `*`, `/` and `+` has its left power above its own right power, and so
/// goes into the right operand of its like: `1 / 2 / 3` is `1 / (2 / 3)`.
/// The right power of `-` is above every left power, so the right operand of
/// a `-` is a single operand: `1 - 2 - 3` is `(1 - 2) - 3`, and `1 - 2 * 3`
/// is `(1 - 2) * 3`. These are the powers of this language, not those of
/// textbook arithmetic.
pub open spec fn infix_binding(op: OpToken) -> Option<(u32, u32)> {
    match op {
        OpToken::Star => Some((101u32, 100u32)),
        OpToken::Slash => Some((91u32, 90u32)),
        OpToken::Min => Some((81u32, 110u32)),
        OpToken::Plus => Some((71u32, 70u32)),
        _ => None,
    }
}

/// The left and right binding powers of an infix operator, in tenths, if it
/// is one.
pub fn infix_bp(op: &OpToken) -> (bp: Option<(u32, u32)>)
    ensures
        bp == infix_binding(*op),
{
    match op {
        OpToken::Star => Some((101, 100)),
        OpToken::Slash => Some((91, 90)),
        OpToken::Min => Some((81, 110)),
        OpToken::Plus => Some((71, 70)),
        _ => None,
    }
}

/// What a parse yields: the tree or the error, and the position in the token
/// stream at which the parse stopped.
pub struct Parsed {
    pub result: Result<SpecAstNode, SpecParserError>,
    pub pos: int,
}

/// The token at `pos`, if it is of class `expected`.
pub open spec fn expect(tokens: Seq<SpecToken>, pos: int, expected: TokenClass) -> Result<
    SpecToken,
    SpecParserError,
> {
    if pos < 0 || pos >= tokens.len() {
        Err(SpecParserError::UnexpectedEndOfTokenStream)
    } else if tokens[pos].token_class == expected {
        Ok(tokens[pos])
    } else {
        Err(SpecParserError::UnexpectedToken { token: tokens[pos], expected: Some(expected) })
    }
}

/// The expression that begins at `pos`, as far as its operators bind at
/// least as tightly as `min_bp`.
///
/// An operand is parsed first: a number, an identifier, a `-` with its
/// operand, or a parenthesis. [`climb`] then takes the operators that follow.
pub open spec fn parse_expr_spec(tokens: Seq<SpecToken>, pos: int, min_bp: int) -> Parsed
    decreases tokens.len() - pos, 1int,
{
    if pos < 0 || pos >= tokens.len() {
        Parsed { result: Err(SpecParserError::UnexpectedEndOfTokenStream), pos }
    } else {
        let token = tokens[pos];
        let operand = match token.token_class {
            TokenClass::Atom(AtomToken::NumericLit) => Parsed {
                result: Ok(SpecAstNode::NumericLit { token, value: token.lexeme }),
                pos: pos + 1,
            },
            TokenClass::Atom(AtomToken::Identifier) => Parsed {
                result: Ok(SpecAstNode::VariableAccessExpr { token, identifier: token.lexeme }),
                pos: pos + 1,
            },
            TokenClass::Op(OpToken::Min) => parse_unary_spec(tokens, pos + 1, token),
            TokenClass::Op(OpToken::LeftParen) => parse_nested_spec(tokens, pos + 1, token),
            TokenClass::Op(_) => Parsed {
                result: Err(SpecParserError::UnexpectedUnaryOperator { token }),
                pos: pos + 1,
            },
            _ => Parsed {
                result: Err(SpecParserError::UnexpectedToken { token, expected: None }),
                pos: pos + 1,
            },
        };
        match operand.result {
            Ok(lhs) => {
                // An operand holds at least one token, so this parse has moved on.
                if pos < operand.pos <= tokens.len() {
                    climb(tokens, operand.pos, lhs, min_bp)
                } else {
                    operand
                }
            },
            Err(_) => operand,
        }
    }
}

/// The operand of the prefix operator `token`, which stands before `pos`:
/// an expression at the right binding power of that operator.
pub open spec fn parse_unary_spec(tokens: Seq<SpecToken>, pos: int, token: SpecToken) -> Parsed
    decreases tokens.len() - pos, 2int,
{
    match token.token_class {
        TokenClass::Op(op) => match infix_binding(op) {
            Some((_, right_bp)) => {
                let operand = parse_expr_spec(tokens, pos, right_bp as int);
                match operand.result {
                    Ok(node) => Parsed {
                        result: Ok(SpecAstNode::UnaryExpr { token, operand: Box::new(node) }),
                        pos: operand.pos,
                    },
                    Err(_) => operand,
                }
            },
            None => Parsed { result: Err(SpecParserError::UnexpectedUnaryOperator { token }), pos },
        },
        _ => Parsed { result: Err(SpecParserError::ExpectedOpToken { token }), pos },
    }
}

/// The inside of the parenthesis `token`, which stands before `pos`, and the
/// parenthesis that closes it.
pub open spec fn parse_nested_spec(tokens: Seq<SpecToken>, pos: int, token: SpecToken) -> Parsed
    decreases tokens.len() - pos, 2int,
{
    let inner = parse_expr_spec(tokens, pos, 0);
    match inner.result {
        Ok(node) => {
            if inner.pos < 0 || inner.pos >= tokens.len() {
                Parsed { result: Err(SpecParserError::UnexpectedEndOfTokenStream), pos: inner.pos }
            } else if tokens[inner.pos].token_class == TokenClass::Op(OpToken::RightParen) {
                Parsed {
                    result: Ok(SpecAstNode::Expr { token, expr: Box::new(node) }),
                    pos: inner.pos + 1,
                }
            } else {
                Parsed {
                    result: Err(SpecParserError::UnclosedExpression { token }),
                    pos: inner.pos + 1,
                }
            }
        },
        Err(_) => inner,
    }
}

/// The expression whose left part `lhs` ends before `pos`.
///
/// A delimiter ends it, and so does an operator without binding powers or
/// one whose left power is below `min_bp`. Any other operator is taken: its
/// right operand is the expression after it at its right power, the two
/// become a binary node, and the climb goes on from that node.
pub open spec fn climb(tokens: Seq<SpecToken>, pos: int, lhs: SpecAstNode, min_bp: int) -> Parsed
    decreases tokens.len() - pos, 0int,
{
    if pos < 0 || pos >= tokens.len() {
        Parsed { result: Err(SpecParserError::UnexpectedEndOfTokenStream), pos }
    } else {
        let token = tokens[pos];
        match token.token_class {
            TokenClass::Delim(_) => Parsed { result: Ok(lhs), pos },
            TokenClass::Op(op) => match infix_binding(op) {
                Some((left_bp, right_bp)) => {
                    if left_bp < min_bp {
                        Parsed { result: Ok(lhs), pos }
                    } else {
                        let rhs = parse_expr_spec(tokens, pos + 1, right_bp as int);
                        match rhs.result {
                            Ok(right) => {
                                // An expression holds at least one token.
                                if pos < rhs.pos <= tokens.len() {
                                    climb(
                                        tokens,
                                        rhs.pos,
                                        SpecAstNode::BinaryExpr {
                                            token,
                                            left: Box::new(lhs),
                                            right: Box::new(right),
                                        },
                                        min_bp,
                                    )
                                } else {
                                    rhs
                                }
                            },
                            Err(_) => rhs,
                        }
                    }
                },
                None => Parsed { result: Ok(lhs), pos },
            },
            _ => Parsed { result: Err(SpecParserError::ExpectedOpToken { token }), pos },
        }
    }
}

/// The assignment whose keyword stands before `pos`: an identifier, `=`,
/// and an expression.
pub open spec fn parse_assignment_spec(tokens: Seq<SpecToken>, pos: int) -> Parsed {
    match expect(tokens, pos, TokenClass::Atom(AtomToken::Identifier)) {
        Ok(name) => match expect(tokens, pos + 1, TokenClass::Op(OpToken::Eq)) {
            Ok(_) => {
                let value = parse_expr_spec(tokens, pos + 2, 0);
                match value.result {
                    Ok(node) => Parsed {
                        result: Ok(
                            SpecAstNode::VariableAssignmentStmt {
                                token: name,
                                identifier: name.lexeme,
                                expression: Box::new(node),
                            },
                        ),
                        pos: value.pos,
                    },
                    Err(_) => value,
                }
            },
            Err(err) => Parsed {
                result: Err(err),
                pos: if pos + 1 < tokens.len() {
                    pos + 2
                } else {
                    pos + 1
                },
            },
        },
        Err(err) => Parsed {
            result: Err(err),
            pos: if 0 <= pos < tokens.len() {
                pos + 1
            } else {
                pos
            },
        },
    }
}

/// The statement that begins at `pos`, with the `;` that ends it.
pub open spec fn parse_stmt_spec(tokens: Seq<SpecToken>, pos: int) -> Parsed {
    if pos < 0 || pos >= tokens.len() {
        Parsed { result: Err(SpecParserError::UnexpectedEndOfTokenStream), pos }
    } else if tokens[pos].token_class == TokenClass::Keyword(KeywordToken::Let) {
        let statement = parse_assignment_spec(tokens, pos + 1);
        match statement.result {
            Ok(node) => match expect(
                tokens,
                statement.pos,
                TokenClass::Delim(DelimToken::Semicolon),
            ) {
                Ok(_) => Parsed { result: Ok(node), pos: statement.pos + 1 },
                Err(err) => Parsed {
                    result: Err(err),
                    pos: if 0 <= statement.pos < tokens.len() {
                        statement.pos + 1
                    } else {
                        statement.pos
                    },
                },
            },
            Err(_) => statement,
        }
    } else {
        Parsed {
            result: Err(SpecParserError::UnhandledToken { token: tokens[pos] }),
            pos: pos + 1,
        }
    }
}

/// The item that begins at `pos`: a statement, or an expression with the
/// `;` after it. Before the end of the input the `;` of an expression may be
/// left out.
pub open spec fn parse_item_spec(tokens: Seq<SpecToken>, pos: int) -> Parsed {
    if pos < 0 || pos >= tokens.len() {
        Parsed { result: Err(SpecParserError::UnexpectedEndOfTokenStream), pos }
    } else {
        match tokens[pos].token_class {
            TokenClass::Atom(_) | TokenClass::Op(_) => {
                let expression = parse_expr_spec(tokens, pos, 0);
                match expression.result {
                    Ok(node) => {
                        let end = expression.pos;
                        if end < 0 || end >= tokens.len() {
                            Parsed {
                                result: Err(SpecParserError::UnexpectedEndOfTokenStream),
                                pos: end,
                            }
                        } else if tokens[end].token_class == TokenClass::Delim(
                            DelimToken::Semicolon,
                        ) {
                            Parsed { result: Ok(node), pos: end + 1 }
                        } else if tokens[end].token_class == TokenClass::Delim(DelimToken::EoF) {
                            Parsed { result: Ok(node), pos: end }
                        } else {
                            Parsed {
                                result: Err(SpecParserError::ExpectedEoF { token: tokens[end] }),
                                pos: end + 1,
                            }
                        }
                    },
                    Err(_) => expression,
                }
            },
            _ => parse_stmt_spec(tokens, pos),
        }
    }
}

/// The program whose items before `pos` are `program`: the items that
/// follow are added to it, up to the end-of-input token.
///
/// The end of the input ends a program that has an item. Where no item
/// stands before it, `program` being empty, an item has to begin, and the
/// end-of-input token is the error of a token that begins none.
pub open spec fn parse_program_spec(tokens: Seq<SpecToken>, pos: int, program: SpecAstNode)
    -> Parsed
    decreases tokens.len() - pos,
{
    if pos < 0 || pos >= tokens.len() {
        Parsed { result: Err(SpecParserError::UnexpectedEndOfTokenStream), pos }
    } else if tokens[pos].token_class == TokenClass::Delim(DelimToken::EoF) && !(program
        is Empty) {
        Parsed { result: Ok(program), pos: pos + 1 }
    } else {
        let item = parse_item_spec(tokens, pos);
        match item.result {
            Ok(node) => {
                // An item holds at least one token, so this parse has moved on.
                if pos < item.pos <= tokens.len() {
                    parse_program_spec(tokens, item.pos, program.then_item(node))
                } else {
                    item
                }
            },
            Err(_) => item,
        }
    }
}

/// The program that a token stream spells.
pub open spec fn parse_spec(tokens: Seq<SpecToken>) -> Result<SpecAstNode, SpecParserError> {
    parse_program_spec(tokens, 0, SpecAstNode::Empty).result
}

/// The first position from `pos` on that holds a token of class `to_token`,
/// or the length of the stream if none does.
pub open spec fn recover_spec(tokens: Seq<SpecToken>, pos: int, to_token: TokenClass) -> int
    decreases tokens.len() - pos,
{
    if pos < 0 || pos >= tokens.len() || tokens[pos].token_class == to_token {
        pos
    } else {
        recover_spec(tokens, pos + 1, to_token)
    }
}

/// An expression that parses has at least one token, ends inside the
/// stream, and is an expression tree with no more numbers and names than
/// it has tokens.
pub proof fn lemma_parse_expr(tokens: Seq<SpecToken>, pos: int, min_bp: int)
    ensures
        parse_expr_spec(tokens, pos, min_bp).result matches Ok(node) ==> node.is_expression()
            && 0 <= pos < parse_expr_spec(tokens, pos, min_bp).pos <= tokens.len()
            && node.atoms() <= parse_expr_spec(tokens, pos, min_bp).pos - pos,
    decreases tokens.len() - pos, 1int,
{
    if 0 <= pos < tokens.len() {
        let token = tokens[pos];
        match token.token_class {
            TokenClass::Op(OpToken::Min) => {
                lemma_parse_unary(tokens, pos + 1, token);
                let operand = parse_unary_spec(tokens, pos + 1, token);
                if operand.result is Ok {
                    lemma_climb(tokens, operand.pos, operand.result->Ok_0, min_bp);
                }
            },
            TokenClass::Op(OpToken::LeftParen) => {
                lemma_parse_nested(tokens, pos + 1, token);
                let operand = parse_nested_spec(tokens, pos + 1, token);
                if operand.result is Ok {
                    lemma_climb(tokens, operand.pos, operand.result->Ok_0, min_bp);
                }
            },
            TokenClass::Atom(AtomToken::NumericLit) => {
                lemma_climb(
                    tokens,
                    pos + 1,
                    SpecAstNode::NumericLit { token, value: token.lexeme },
                    min_bp,
                );
            },
            TokenClass::Atom(AtomToken::Identifier) => {
                lemma_climb(
                    tokens,
                    pos + 1,
                    SpecAstNode::VariableAccessExpr { token, identifier: token.lexeme },
                    min_bp,
                );
            },
            _ => {},
        }
    }
}

/// The operand of a `-` that parses has at least one token, and the negation
/// is an expression tree with no more numbers and names than the operand
/// has tokens.
pub proof fn lemma_parse_unary(tokens: Seq<SpecToken>, pos: int, token: SpecToken)
    requires
        token.token_class == TokenClass::Op(OpToken::Min),
    ensures
        parse_unary_spec(tokens, pos, token).result matches Ok(node) ==> node.is_expression() && 0
            <= pos < parse_unary_spec(tokens, pos, token).pos <= tokens.len() && node.atoms()
            <= parse_unary_spec(tokens, pos, token).pos - pos,
    decreases tokens.len() - pos, 2int,
{
    lemma_parse_expr(tokens, pos, 110);
}

/// A parenthesis that parses has at least two tokens after the opening one,
/// and is an expression tree with no more numbers and names than it has
/// tokens.
pub proof fn lemma_parse_nested(tokens: Seq<SpecToken>, pos: int, token: SpecToken)
    ensures
        parse_nested_spec(tokens, pos, token).result matches Ok(node) ==> node.is_expression() && 0
            <= pos < parse_nested_spec(tokens, pos, token).pos <= tokens.len() && node.atoms()
            <= parse_nested_spec(tokens, pos, token).pos - pos,
    decreases tokens.len() - pos, 2int,
{
    lemma_parse_expr(tokens, pos, 0);
}

/// A climb from an expression tree that succeeds ends inside the stream, at
/// or after the position where it began, with an expression tree that has
/// no more numbers and names than the tree it began with and the tokens it
/// took.
pub proof fn lemma_climb(tokens: Seq<SpecToken>, pos: int, lhs: SpecAstNode, min_bp: int)
    requires
        lhs.is_expression(),
    ensures
        climb(tokens, pos, lhs, min_bp).result matches Ok(node) ==> node.is_expression() && 0
            <= pos <= climb(tokens, pos, lhs, min_bp).pos <= tokens.len() && node.atoms()
            <= lhs.atoms() + climb(tokens, pos, lhs, min_bp).pos - pos,
    decreases tokens.len() - pos, 0int,
{
    if 0 <= pos < tokens.len() {
        let token = tokens[pos];
        match token.token_class {
            TokenClass::Op(op) => match infix_binding(op) {
                Some((left_bp, right_bp)) => {
                    if left_bp >= min_bp {
                        lemma_parse_expr(tokens, pos + 1, right_bp as int);
                        let rhs = parse_expr_spec(tokens, pos + 1, right_bp as int);
                        if rhs.result is Ok {
                            lemma_climb(
                                tokens,
                                rhs.pos,
                                SpecAstNode::BinaryExpr {
                                    token,
                                    left: Box::new(lhs),
                                    right: Box::new(rhs.result->Ok_0),
                                },
                                min_bp,
                            );
                        }
                    }
                },
                None => {},
            },
            _ => {},
        }
    }
}

/// An item that parses has at least one token, ends inside the stream, and
/// is an item tree with no more numbers and names than it has tokens.
pub proof fn lemma_parse_item(tokens: Seq<SpecToken>, pos: int)
    ensures
        parse_item_spec(tokens, pos).result matches Ok(node) ==> node.is_item() && 0 <= pos
            < parse_item_spec(tokens, pos).pos <= tokens.len() && node.atoms()
            <= parse_item_spec(tokens, pos).pos - pos,
{
    lemma_parse_expr(tokens, pos, 0);
    lemma_parse_expr(tokens, pos + 3, 0);
}

/// A program that parses is a program tree, if the items before it were.
/// It ends inside the stream, and has fewer numbers and names than those
/// items and the tokens after them: the last token is the end of the input.
pub proof fn lemma_parse_program(tokens: Seq<SpecToken>, pos: int, program: SpecAstNode)
    requires
        program is Empty || program.is_program(),
    ensures
        parse_program_spec(tokens, pos, program).result matches Ok(node) ==> node.is_program()
            && 0 <= pos < parse_program_spec(tokens, pos, program).pos <= tokens.len()
            && node.atoms() < program.atoms() + parse_program_spec(tokens, pos, program).pos
            - pos,
    decreases tokens.len() - pos,
{
    if 0 <= pos < tokens.len() && (tokens[pos].token_class != TokenClass::Delim(DelimToken::EoF)
        || program is Empty) {
        lemma_parse_item(tokens, pos);
        let item = parse_item_spec(tokens, pos);
        if item.result is Ok {
            lemma_parse_program(tokens, item.pos, program.then_item(item.result->Ok_0));
        }
    }
}

/// Every tree that the parser yields is a program tree, with fewer numbers
/// and names than the stream has tokens.
pub proof fn lemma_parse_yields_program(tokens: Seq<SpecToken>)
    ensures
        parse_spec(tokens) matches Ok(node) ==> node.is_program() && node.atoms() < tokens.len(),
{
    lemma_parse_program(tokens, 0, SpecAstNode::Empty);
}

/// A program has an item: where the first item has to begin, the end of
/// the input is an error. And a `;` begins no item, wherever it stands.
pub proof fn lemma_program_has_an_item(tokens: Seq<SpecToken>, pos: int, program: SpecAstNode)
    requires
        0 <= pos < tokens.len(),
    ensures
        tokens[pos].token_class == TokenClass::Delim(DelimToken::EoF) ==> parse_program_spec(
            tokens,
            pos,
            SpecAstNode::Empty,
        ) == (Parsed {
            result: Err(SpecParserError::UnhandledToken { token: tokens[pos] }),
            pos: pos + 1,
        }),
        tokens[pos].token_class == TokenClass::Delim(DelimToken::Semicolon) ==> parse_program_spec(
            tokens,
            pos,
            program,
        ) == (Parsed {
            result: Err(SpecParserError::UnhandledToken { token: tokens[pos] }),
            pos: pos + 1,
        }),
        tokens.len() == 1 && pos == 0 && tokens[0].token_class == TokenClass::Delim(
            DelimToken::EoF,
        ) ==> parse_spec(tokens) == Err::<SpecAstNode, SpecParserError>(
            SpecParserError::UnhandledToken { token: tokens[0] },
        ),
{
}

/// A parenthesis is closed by `)`: where the expression inside it parses
/// and `)` follows, the parenthesis is that expression under the opening
/// token; where another token follows, the parse fails, of the expression and
/// of the program, with the error that names the opening token.
pub proof fn lemma_parenthesis_is_closed(
    tokens: Seq<SpecToken>,
    pos: int,
    min_bp: int,
    program: SpecAstNode,
)
    requires
        0 <= pos < tokens.len(),
        tokens[pos].token_class == TokenClass::Op(OpToken::LeftParen),
        parse_expr_spec(tokens, pos + 1, 0).result is Ok,
        parse_expr_spec(tokens, pos + 1, 0).pos < tokens.len(),
    ensures
        ({
            let inner = parse_expr_spec(tokens, pos + 1, 0);
            let unclosed = Err::<SpecAstNode, SpecParserError>(
                SpecParserError::UnclosedExpression { token: tokens[pos] },
            );
            if tokens[inner.pos].token_class == TokenClass::Op(OpToken::RightParen) {
                parse_nested_spec(tokens, pos + 1, tokens[pos]) == (Parsed {
                    result: Ok(
                        SpecAstNode::Expr {
                            token: tokens[pos],
                            expr: Box::new(inner.result->Ok_0),
                        },
                    ),
                    pos: inner.pos + 1,
                })
            } else {
                &&& parse_nested_spec(tokens, pos + 1, tokens[pos]) == (Parsed {
                    result: unclosed,
                    pos: inner.pos + 1,
                })
                &&& parse_expr_spec(tokens, pos, min_bp).result == unclosed
                &&& parse_program_spec(tokens, pos, program).result == unclosed
            }
        }),
{
    lemma_parse_expr(tokens, pos + 1, 0);
}

/// The state of a [`Parser`]: the token stream and the position in it.
pub struct ParserState {
    pub tokens: Seq<SpecToken>,
    pub pos: int,
}

/// A parser over a token stream.
pub struct Parser<'a> {
    tokens: &'a Vec<Token>,
    pos: usize,
}

impl<'a> View for Parser<'a> {
    type V = ParserState;

    closed spec fn view(&self) -> ParserState {
        ParserState { tokens: spec_tokens(self.tokens@), pos: self.pos as int }
    }
}

impl<'a> Parser<'a> {
    /// The position lies inside the stream or at its end.
    pub closed spec fn well_formed(&self) -> bool {
        self.pos <= self.tokens@.len() <= usize::MAX
    }

    /// A parser at the start of `tokens`.
    pub fn new(tokens: &'a Vec<Token>) -> (parser: Parser<'a>)
        ensures
            parser.well_formed(),
            parser@ == (ParserState { tokens: spec_tokens(tokens@), pos: 0 }),
    {
        assert(tokens@.len() == tokens.len());
        Parser { tokens, pos: 0 }
    }

    /// The parser's position in the token stream.
    pub fn position(&self) -> (pos: usize)
        ensures
            pos == self@.pos,
    {
        self.pos
    }

    // utilities
    /// The token at the parser's position.
    fn peek(&self) -> (next: Result<&'a Token, ParserError>)
        requires
            self.well_formed(),
        ensures
            self@.pos < self@.tokens.len() ==> next is Ok && next->Ok_0@ == self@.tokens[self@.pos],
            self@.pos >= self@.tokens.len() ==> next == Err::<&Token, ParserError>(
                ParserError::UnexpectedEndOfTokenStream,
            ),
    {
        if self.pos < self.tokens.len() {
            Ok(&self.tokens[self.pos])
        } else {
            Err(ParserError::UnexpectedEndOfTokenStream)
        }
    }

    /// Takes the token at the parser's position.
    fn consume(&mut self) -> (next: Result<Token, ParserError>)
        requires
            old(self).well_formed(),
        ensures
            final(self).well_formed(),
            final(self)@.tokens == old(self)@.tokens,
            match next {
                Ok(token) => old(self)@.pos < old(self)@.tokens.len() && token@ == old(
                    self
                )@.tokens[old(self)@.pos] && final(self)@.pos == old(self)@.pos + 1,
                Err(err) => old(self)@.pos >= old(self)@.tokens.len() && final(self)@.pos == old(
                    self
                )@.pos && err == ParserError::UnexpectedEndOfTokenStream,
            },
    {
        let consumed = match self.peek() {
            Ok(token) => token.clone(),
            Err(err) => {
                return Err(err);
            },
        };
        self.pos += 1;
        Ok(consumed)
    }

    /// Takes the token at the parser's position, which has to be of class
    /// `expected`.
    fn consume_expecting(&mut self, expected: TokenClass) -> (next: Result<Token, ParserError>)
        requires
            old(self).well_formed(),
        ensures
            final(self).well_formed(),
            final(self)@.tokens == old(self)@.tokens,
            final(self)@.pos == if old(self)@.pos < old(self)@.tokens.len() {
                old(self)@.pos + 1
            } else {
                old(self)@.pos
            },
            match expect(old(self)@.tokens, old(self)@.pos, expected) {
                Ok(token) => next is Ok && next->Ok_0@ == token,
                Err(err) => next is Err && next->Err_0@ == err,
            },
    {
        let consumed = match self.consume() {
            Ok(token) => token,
            Err(err) => {
                return Err(err);
            },
        };
        if consumed.token_class == expected {
            return Ok(consumed);
        }
        Err(ParserError::UnexpectedToken { token: consumed, expected: Some(expected) })
    }

    /// Skips tokens up to the next one of class `to_token`, or to the end of
    /// the stream if there is none.
    pub fn recover(&mut self, to_token: TokenClass)
        requires
            old(self).well_formed(),
        ensures
            final(self).well_formed(),
            final(self)@.tokens == old(self)@.tokens,
            final(self)@.pos == recover_spec(old(self)@.tokens, old(self)@.pos, to_token),
    {
        loop
            invariant
                self.well_formed(),
                self@.tokens == old(self)@.tokens,
                recover_spec(self@.tokens, self@.pos, to_token) == recover_spec(
                    old(self)@.tokens,
                    old(self)@.pos,
                    to_token,
                ),
            decreases self@.tokens.len() - self@.pos,
        {
            match self.peek() {
                Ok(token) => {
                    if token.token_class == to_token {
                        return ;
                    }
                    self.pos += 1;
                },
                Err(_) => {
                    return ;
                },
            }
        }
    }

    // parsing
    /// Parses the program that begins at the parser's position.
    pub fn parse(&mut self) -> (parsed: ParseResult)
        requires
            old(self).well_formed(),
        ensures
            final(self).well_formed(),
            final(self)@.tokens == old(self)@.tokens,
            final(self)@.pos == parse_program_spec(
                old(self)@.tokens,
                old(self)@.pos,
                SpecAstNode::Empty,
            ).pos,
            spec_result(parsed) == parse_program_spec(
                old(self)@.tokens,
                old(self)@.pos,
                SpecAstNode::Empty,
            ).result,
            parsed matches Ok(node) ==> node.model().is_program(),
    {
        let mut program: Box<AstNode> = Box::new(AstNode::Empty);
        loop
            invariant
                self.well_formed(),
                self@.tokens == old(self)@.tokens,
                parse_program_spec(self@.tokens, self@.pos, program.model()) == parse_program_spec(
                    old(self)@.tokens,
                    old(self)@.pos,
                    SpecAstNode::Empty,
                ),
            decreases self@.tokens.len() - self@.pos,
        {
            let token_class = match self.peek() {
                Ok(token) => token.token_class,
                Err(err) => {
                    return Err(err);
                },
            };
            let begun = match &*program {
                AstNode::Empty => false,
                _ => true,
            };
            if begun && token_class == TokenClass::Delim(DelimToken::EoF) {
                self.pos += 1;
                proof {
                    lemma_parse_program(old(self)@.tokens, old(self)@.pos, SpecAstNode::Empty);
                }
                return Ok(program);
            }
            let item = match self.parse_tokens() {
                Ok(item) => item,
                Err(err) => {
                    return Err(err);
                },
            };
            program = match *program {
                AstNode::Empty => item,
                first => Box::new(AstNode::Sequence { first: Box::new(first), second: item }),
            };
        }
    }

    /// Parses one item: a statement, or an expression and the `;` after it.
    fn parse_tokens(&mut self) -> (parsed: ParseResult)
        requires
            old(self).well_formed(),
        ensures
            final(self).well_formed(),
            final(self)@.tokens == old(self)@.tokens,
            final(self)@.pos == parse_item_spec(old(self)@.tokens, old(self)@.pos).pos,
            spec_result(parsed) == parse_item_spec(old(self)@.tokens, old(self)@.pos).result,
            parsed is Ok ==> final(self)@.pos > old(self)@.pos,
    {
        let token_class = match self.peek() {
            Ok(token) => token.token_class,
            Err(err) => {
                return Err(err);
            },
        };
        match token_class {
            TokenClass::Atom(_) | TokenClass::Op(_) => {
                let expression = match self.parse_expr(0) {
                    Ok(expression) => expression,
                    Err(err) => {
                        return Err(err);
                    },
                };
                let end = match self.peek() {
                    Ok(token) => token,
                    Err(err) => {
                        return Err(err);
                    },
                };
                if end.token_class == TokenClass::Delim(DelimToken::Semicolon) {
                    self.pos += 1;
                    Ok(expression)
                } else if end.token_class == TokenClass::Delim(DelimToken::EoF) {
                    Ok(expression)
                } else {
                    self.pos += 1;
                    Err(ParserError::ExpectedEoF { token: end.clone() })
                }
            },
            _ => self.parse_stmt(),
        }
    }

    // statements
    /// Parses the statement that begins at the parser's position.
    fn parse_stmt(&mut self) -> (parsed: ParseResult)
        requires
            old(self).well_formed(),
        ensures
            final(self).well_formed(),
            final(self)@.tokens == old(self)@.tokens,
            final(self)@.pos == parse_stmt_spec(old(self)@.tokens, old(self)@.pos).pos,
            spec_result(parsed) == parse_stmt_spec(old(self)@.tokens, old(self)@.pos).result,
            parsed is Ok ==> final(self)@.pos > old(self)@.pos,
    {
        let token = match self.consume() {
            Ok(token) => token,
            Err(err) => {
                return Err(err);
            },
        };
        let statement = match token.token_class {
            TokenClass::Keyword(KeywordToken::Let) => match self.parse_variable_assignment_stmt() {
                Ok(statement) => statement,
                Err(err) => {
                    return Err(err);
                },
            },
            _ => {
                return Err(ParserError::UnhandledToken { token });
            },
        };
        match self.consume_expecting(TokenClass::Delim(DelimToken::Semicolon)) {
            Ok(_) => Ok(statement),
            Err(err) => Err(err),
        }
    }

    /// Parses the assignment whose keyword stands before the parser's
    /// position.
    fn parse_variable_assignment_stmt(&mut self) -> (parsed: ParseResult)
        requires
            old(self).well_formed(),
        ensures
            final(self).well_formed(),
            final(self)@.tokens == old(self)@.tokens,
            final(self)@.pos == parse_assignment_spec(old(self)@.tokens, old(self)@.pos).pos,
            spec_result(parsed) == parse_assignment_spec(old(self)@.tokens, old(self)@.pos).result,
            parsed is Ok ==> final(self)@.pos > old(self)@.pos,
    {
        let token = match self.consume_expecting(TokenClass::Atom(AtomToken::Identifier)) {
            Ok(token) => token,
            Err(err) => {
                return Err(err);
            },
        };
        match self.consume_expecting(TokenClass::Op(OpToken::Eq)) {
            Ok(_) => {},
            Err(err) => {
                return Err(err);
            },
        }
        let expression = match self.parse_expr(0) {
            Ok(expression) => expression,
            Err(err) => {
                return Err(err);
            },
        };
        Ok(
            Box::new(
                AstNode::VariableAssignmentStmt {
                    identifier: token.lexeme.clone(),
                    token,
                    expression,
                },
            ),
        )
    }

    // pratt-parsing binary operators
    /// Parses the expression that begins at the parser's position, as far as
    /// its operators bind at least as tightly as `min_bp`.
    fn parse_expr(&mut self, min_bp: u32) -> (parsed: ParseResult)
        requires
            old(self).well_formed(),
        ensures
            final(self).well_formed(),
            final(self)@.tokens == old(self)@.tokens,
            final(self)@.pos == parse_expr_spec(
                old(self)@.tokens,
                old(self)@.pos,
                min_bp as int,
            ).pos,
            spec_result(parsed) == parse_expr_spec(
                old(self)@.tokens,
                old(self)@.pos,
                min_bp as int,
            ).result,
            parsed is Ok ==> final(self)@.pos > old(self)@.pos,
        decreases old(self)@.tokens.len() - old(self)@.pos, 1int,
    {
        let ghost tokens = self@.tokens;
        let ghost start = self@.pos;
        let lhs_token = match self.consume() {
            Ok(token) => token,
            Err(err) => {
                return Err(err);
            },
        };
        let operand = match lhs_token.token_class {
            TokenClass::Atom(AtomToken::NumericLit) => self.parse_numeric_lit(&lhs_token),
            TokenClass::Atom(AtomToken::Identifier) => self.parse_identifier(&lhs_token),
            TokenClass::Op(OpToken::Min) => self.parse_unary_expr(&lhs_token),
            TokenClass::Op(OpToken::LeftParen) => self.parse_nested_expr(&lhs_token),
            TokenClass::Op(_) => Err(ParserError::UnexpectedUnaryOperator { token: lhs_token }),
            _ => Err(ParserError::UnexpectedToken { token: lhs_token, expected: None }),
        };
        let mut lhs = match operand {
            Ok(lhs) => lhs,
            Err(err) => {
                return Err(err);
            },
        };

        loop
            invariant
                self.well_formed(),
                self@.tokens == tokens,
                tokens == old(self)@.tokens,
                start == old(self)@.pos,
                start < self@.pos,
                climb(tokens, self@.pos, lhs.model(), min_bp as int) == parse_expr_spec(
                    tokens,
                    start,
                    min_bp as int,
                ),
            decreases tokens.len() - self@.pos,
        {
            let op_token = match self.peek() {
                Ok(token) => token,
                Err(err) => {
                    return Err(err);
                },
            };
            let binding = match op_token.token_class {
                TokenClass::Delim(_) => None,
                TokenClass::Op(op) => infix_bp(&op),
                _ => {
                    return Err(ParserError::ExpectedOpToken { token: op_token.clone() });
                },
            };
            let r_bp = match binding {
                Some((l_bp, r_bp)) => {
                    if l_bp < min_bp {
                        return Ok(lhs);
                    }
                    r_bp
                },
                None => {
                    return Ok(lhs);
                },
            };

            let consumed_op_token = match self.consume() {
                Ok(token) => token,
                Err(err) => {
                    return Err(err);
                },
            };

            let rhs = match self.parse_expr(r_bp) {
                Ok(rhs) => rhs,
                Err(err) => {
                    return Err(err);
                },
            };
            lhs = Box::new(AstNode::BinaryExpr { token: consumed_op_token, left: lhs, right: rhs });
        }
    }

    fn parse_numeric_lit(&self, token: &Token) -> (parsed: ParseResult)
        ensures
            spec_result(parsed) == Ok::<SpecAstNode, SpecParserError>(
                SpecAstNode::NumericLit { token: token@, value: token@.lexeme },
            ),
    {
        Ok(Box::new(AstNode::NumericLit { token: token.clone(), value: token.lexeme.clone() }))
    }

    fn parse_identifier(&self, token: &Token) -> (parsed: ParseResult)
        ensures
            spec_result(parsed) == Ok::<SpecAstNode, SpecParserError>(
                SpecAstNode::VariableAccessExpr { token: token@, identifier: token@.lexeme },
            ),
    {
        Ok(
            Box::new(
                AstNode::VariableAccessExpr {
                    token: token.clone(),
                    identifier: token.lexeme.clone(),
                },
            ),
        )
    }

    /// Parses the operand of the prefix operator `token`, which stands
    /// before the parser's position.
    fn parse_unary_expr(&mut self, token: &Token) -> (parsed: ParseResult)
        requires
            old(self).well_formed(),
        ensures
            final(self).well_formed(),
            final(self)@.tokens == old(self)@.tokens,
            final(self)@.pos == parse_unary_spec(old(self)@.tokens, old(self)@.pos, token@).pos,
            spec_result(parsed) == parse_unary_spec(
                old(self)@.tokens,
                old(self)@.pos,
                token@,
            ).result,
            parsed is Ok ==> final(self)@.pos > old(self)@.pos,
        decreases old(self)@.tokens.len() - old(self)@.pos, 2int,
    {
        let op = match token.token_class {
            TokenClass::Op(op) => op,
            _ => {
                return Err(ParserError::ExpectedOpToken { token: token.clone() });
            },
        };

        let right_bp = match infix_bp(&op) {
            Some((_, right_bp)) => right_bp,
            None => {
                return Err(ParserError::UnexpectedUnaryOperator { token: token.clone() });
            },
        };
        let operand = match self.parse_expr(right_bp) {
            Ok(operand) => operand,
            Err(err) => {
                return Err(err);
            },
        };
        Ok(Box::new(AstNode::UnaryExpr { token: token.clone(), operand }))
    }

    /// Parses the inside of the parenthesis `token`, which stands before
    /// the parser's position, and the parenthesis that closes it.
    fn parse_nested_expr(&mut self, token: &Token) -> (parsed: ParseResult)
        requires
            old(self).well_formed(),
        ensures
            final(self).well_formed(),
            final(self)@.tokens == old(self)@.tokens,
            final(self)@.pos == parse_nested_spec(old(self)@.tokens, old(self)@.pos, token@).pos,
            spec_result(parsed) == parse_nested_spec(
                old(self)@.tokens,
                old(self)@.pos,
                token@,
            ).result,
            parsed is Ok ==> final(self)@.pos > old(self)@.pos,
        decreases old(self)@.tokens.len() - old(self)@.pos, 2int,
    {
        let nested_expression = match self.parse_expr(0) {
            Ok(expression) => expression,
            Err(err) => {
                return Err(err);
            },
        };
        let expression_end_token = match self.consume() {
            Ok(token) => token,
            Err(err) => {
                return Err(err);
            },
        };
        if expression_end_token.token_class == TokenClass::Op(OpToken::RightParen) {
            Ok(Box::new(AstNode::Expr { token: token.clone(), expr: nested_expression }))
        } else {
            Err(ParserError::UnclosedExpression { token: token.clone() })
        }
    }
}

} // verus!
