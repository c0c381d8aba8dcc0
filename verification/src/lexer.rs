//! Scanning of source text into tokens.
//!
//! The scan is a single pass from left to right with one character of
//! lookahead. Positions count characters: `row` is the number of newlines
//! passed, `col` the number of characters since the last of them.

pub mod laws;

use vstd::prelude::*;

verus! {

/// Where a token begins in the source text.
#[derive(Debug, Clone, Copy, PartialEq, Eq, Structural)]
pub struct TokenMeta {
    pub row: usize,
    pub col: usize,
}

/// The tokens that end an item or the input.
#[derive(Debug, Clone, Copy, PartialEq, Eq, Structural)]
pub enum DelimToken {
    Semicolon,
    EoF,
}

/// Parentheses, the signs of arithmetic and the sign of assignment.
#[derive(Debug, Clone, Copy, PartialEq, Eq, Structural)]
pub enum OpToken {
    LeftParen,
    RightParen,
    Plus,
    Min,
    Slash,
    Star,
    Eq,
}

/// The tokens that are operands by themselves.
#[derive(Debug, Clone, Copy, PartialEq, Eq, Structural)]
pub enum AtomToken {
    NumericLit,
    Identifier,
}

/// The words that are no identifiers.
#[derive(Debug, Clone, Copy, PartialEq, Eq, Structural)]
pub enum KeywordToken {
    Let,
}

/// What kind of token a piece of text is.
#[derive(Debug, Clone, Copy, PartialEq, Eq, Structural)]
pub enum TokenClass {
    Delim(DelimToken),
    Op(OpToken),
    Atom(AtomToken),
    Keyword(KeywordToken),
}

/// A classified piece of source text.
#[derive(Debug, PartialEq, Eq)]
pub struct Token {
    pub token_class: TokenClass,
    pub lexeme: String,
    pub meta: TokenMeta,
}

/// The mathematical value of a [`Token`].
pub struct SpecToken {
    pub token_class: TokenClass,
    pub lexeme: Seq<char>,
    pub meta: TokenMeta,
}

impl View for Token {
    type V = SpecToken;

    open spec fn view(&self) -> SpecToken {
        SpecToken { token_class: self.token_class, lexeme: self.lexeme@, meta: self.meta }
    }
}

impl Clone for Token {
    fn clone(&self) -> (copy: Self)
        ensures
            copy == *self,
    {
        Token { token_class: self.token_class, lexeme: self.lexeme.clone(), meta: self.meta }
    }
}

/// The values of a sequence of tokens, in order.
pub open spec fn spec_tokens(tokens: Seq<Token>) -> Seq<SpecToken> {
    Seq::new(tokens.len(), |i: int| tokens[i]@)
}

/// Why a scan stopped early.
#[derive(Debug, PartialEq, Eq)]
pub enum LexerError {
    /// A character was asked for at or past the end of the text.
    UnexpectedEndOfFile { meta: TokenMeta },
    /// A character that can begin no token.
    UnexpectedCharacter { char: String, meta: TokenMeta },
    /// A numeric literal with a second `.`; `meta` is where the literal begins.
    InvalidNumericLit { char: String, meta: TokenMeta },
}

/// The mathematical value of a [`LexerError`].
pub enum SpecLexerError {
    UnexpectedEndOfFile { meta: TokenMeta },
    UnexpectedCharacter { char: Seq<char>, meta: TokenMeta },
    InvalidNumericLit { char: Seq<char>, meta: TokenMeta },
}

impl View for LexerError {
    type V = SpecLexerError;

    open spec fn view(&self) -> SpecLexerError {
        match self {
            LexerError::UnexpectedEndOfFile { meta } => SpecLexerError::UnexpectedEndOfFile {
                meta: *meta,
            },
            LexerError::UnexpectedCharacter { char, meta } => SpecLexerError::UnexpectedCharacter {
                char: char@,
                meta: *meta,
            },
            LexerError::InvalidNumericLit { char, meta } => SpecLexerError::InvalidNumericLit {
                char: char@,
                meta: *meta,
            },
        }
    }
}

impl Clone for LexerError {
    fn clone(&self) -> (copy: Self)
        ensures
            copy == *self,
    {
        match self {
            LexerError::UnexpectedEndOfFile { meta } => LexerError::UnexpectedEndOfFile {
                meta: *meta,
            },
            LexerError::UnexpectedCharacter { char, meta } => LexerError::UnexpectedCharacter {
                char: char.clone(),
                meta: *meta,
            },
            LexerError::InvalidNumericLit { char, meta } => LexerError::InvalidNumericLit {
                char: char.clone(),
                meta: *meta,
            },
        }
    }
}

/// A decimal digit.
pub open spec fn is_digit(c: char) -> bool {
    '0' <= c <= '9'
}

/// The two characters that separate tokens and end a word.
pub open spec fn is_space(c: char) -> bool {
    c == ' ' || c == '\n'
}

/// A character that may begin a keyword or an identifier.
pub open spec fn starts_word(c: char) -> bool {
    'a' <= c <= 'z' || 'A' <= c <= 'Z' || c == '_'
}

/// The class of a token that consists of the single character `c`.
pub open spec fn punctuation(c: char) -> Option<TokenClass> {
    if c == ';' {
        Some(TokenClass::Delim(DelimToken::Semicolon))
    } else if c == '(' {
        Some(TokenClass::Op(OpToken::LeftParen))
    } else if c == ')' {
        Some(TokenClass::Op(OpToken::RightParen))
    } else if c == '=' {
        Some(TokenClass::Op(OpToken::Eq))
    } else if c == '+' {
        Some(TokenClass::Op(OpToken::Plus))
    } else if c == '-' {
        Some(TokenClass::Op(OpToken::Min))
    } else if c == '/' {
        Some(TokenClass::Op(OpToken::Slash))
    } else if c == '*' {
        Some(TokenClass::Op(OpToken::Star))
    } else {
        None
    }
}

/// Where the run of digits and dots that continues at `at` ends, or `None`
/// when the run holds a dot although one was seen before.
pub open spec fn numeral_end(input: Seq<char>, at: int, seen_dot: bool) -> Option<int>
    decreases input.len() - at,
{
    if at < 0 || at >= input.len() {
        Some(at)
    } else if is_digit(input[at]) {
        numeral_end(input, at + 1, seen_dot)
    } else if input[at] == '.' {
        if seen_dot {
            None
        } else {
            numeral_end(input, at + 1, true)
        }
    } else {
        Some(at)
    }
}

/// Where the run of characters other than spaces that continues at `at` ends.
pub open spec fn word_end(input: Seq<char>, at: int) -> int
    decreases input.len() - at,
{
    if at < 0 || at >= input.len() || is_space(input[at]) {
        at
    } else {
        word_end(input, at + 1)
    }
}

/// The letters of the one keyword.
pub open spec fn keyword_let() -> Seq<char> {
    seq!['l', 'e', 't']
}

/// The class of a word: the keyword if it spells it, else an identifier.
pub open spec fn word_class(word: Seq<char>) -> TokenClass {
    if word == keyword_let() {
        TokenClass::Keyword(KeywordToken::Let)
    } else {
        TokenClass::Atom(AtomToken::Identifier)
    }
}

/// A numeral ends inside the text, at or after the place from which its
/// end is sought.
pub proof fn lemma_numeral_end_bounds(input: Seq<char>, at: int, seen_dot: bool)
    requires
        0 <= at <= input.len(),
    ensures
        numeral_end(input, at, seen_dot) matches Some(end) ==> at <= end <= input.len(),
    decreases input.len() - at,
{
    if at < input.len() {
        if is_digit(input[at]) {
            lemma_numeral_end_bounds(input, at + 1, seen_dot);
        } else if input[at] == '.' && !seen_dot {
            lemma_numeral_end_bounds(input, at + 1, true);
        }
    }
}

/// A word ends inside the text, at the first space from the place from
/// which its end is sought, or at the end of the text if there is none.
pub proof fn lemma_word_end_bounds(input: Seq<char>, at: int)
    requires
        0 <= at <= input.len(),
    ensures
        at <= word_end(input, at) <= input.len(),
        forall|i: int| at <= i < word_end(input, at) ==> !is_space(#[trigger] input[i]),
        word_end(input, at) < input.len() ==> is_space(input[word_end(input, at)]),
    decreases input.len() - at,
{
    if at < input.len() && !is_space(input[at]) {
        lemma_word_end_bounds(input, at + 1);
    }
}

/// What a scan yields: the tokens found, the error that stopped it, if one
/// did, and where it stopped: at the end of the text or, after an error,
/// where the token began that could not be scanned.
pub struct Scan {
    pub tokens: Seq<SpecToken>,
    pub error: Option<SpecLexerError>,
    pub pos: int,
    pub row: int,
    pub col: int,
}

impl Scan {
    /// This scan with `token` before it.
    pub open spec fn after(self, token: SpecToken) -> Scan {
        Scan { tokens: seq![token] + self.tokens, ..self }
    }
}

/// The token of class `token_class` that spells `lexeme` at `row`, `col`.
pub open spec fn token_at(token_class: TokenClass, lexeme: Seq<char>, row: int, col: int)
    -> SpecToken {
    SpecToken { token_class, lexeme, meta: TokenMeta { row: row as usize, col: col as usize } }
}

/// The scan of `input` from character `pos`, which stands at `row`, `col`.
///
/// Spaces are skipped and a newline begins a row. A punctuation character is
/// a token by itself. A digit begins a numeric literal, the longest run of
/// digits with at most one dot among or after them; a second dot in the run is
/// an error. A letter or underscore begins a word, which runs up to the next
/// space or newline; the word `let` is the keyword, every other word an
/// identifier. Any other character is an error. A scan that reaches the end
/// of the text closes with the end-of-input token, whose lexeme is empty.
pub open spec fn lex(input: Seq<char>, pos: int, row: int, col: int) -> Scan
    decreases input.len() - pos,
{
    if pos < 0 || pos >= input.len() {
        Scan {
            tokens: seq![token_at(TokenClass::Delim(DelimToken::EoF), Seq::empty(), row, col)],
            error: None,
            pos,
            row,
            col,
        }
    } else {
        let c = input[pos];
        let meta = TokenMeta { row: row as usize, col: col as usize };
        if c == ' ' {
            lex(input, pos + 1, row, col + 1)
        } else if c == '\n' {
            lex(input, pos + 1, row + 1, 0)
        } else if punctuation(c) is Some {
            lex(input, pos + 1, row, col + 1).after(
                token_at(punctuation(c)->0, seq![c], row, col),
            )
        } else if is_digit(c) {
            match numeral_end(input, pos + 1, false) {
                Some(end) => {
                    proof {
                        lemma_numeral_end_bounds(input, pos + 1, false);
                    }
                    lex(input, end, row, col + end - pos).after(
                        token_at(
                            TokenClass::Atom(AtomToken::NumericLit),
                            input.subrange(pos, end),
                            row,
                            col,
                        ),
                    )
                },
                None => Scan {
                    tokens: Seq::empty(),
                    error: Some(SpecLexerError::InvalidNumericLit { char: seq!['.'], meta }),
                    pos,
                    row,
                    col,
                },
            }
        } else if starts_word(c) {
            let end = word_end(input, pos + 1);
            let word = input.subrange(pos, end);
            proof {
                lemma_word_end_bounds(input, pos + 1);
            }
            lex(input, end, row, col + end - pos).after(token_at(word_class(word), word, row, col))
        } else {
            Scan {
                tokens: Seq::empty(),
                error: Some(SpecLexerError::UnexpectedCharacter { char: seq![c], meta }),
                pos,
                row,
                col,
            }
        }
    }
}

/// The scan of a whole text.
pub open spec fn lex_all(input: Seq<char>) -> Scan {
    lex(input, 0, 0, 0)
}

/// The state of a [`Lexer`]: the text, the position of the scan in it, and
/// the tokens made so far.
pub struct LexerState {
    pub input: Seq<char>,
    pub pos: int,
    pub row: int,
    pub col: int,
    pub tokens: Seq<SpecToken>,
}

impl LexerState {
    /// This state with the scan moved to `pos`, `row`, `col`.
    pub open spec fn moved(self, pos: int, row: int, col: int) -> LexerState {
        LexerState { pos, row, col, ..self }
    }

    /// This state with one more token, which begins at the scan's position.
    pub open spec fn with_token(self, token_class: TokenClass, lexeme: Seq<char>) -> LexerState {
        LexerState {
            tokens: self.tokens.push(token_at(token_class, lexeme, self.row, self.col)),
            ..self
        }
    }

    /// The position of the scan.
    pub open spec fn meta(self) -> TokenMeta {
        TokenMeta { row: self.row as usize, col: self.col as usize }
    }

    /// The character at which the scan stands.
    pub open spec fn next(self) -> char {
        self.input[self.pos]
    }

    /// This state with the characters up to `end` made a token of class
    /// `token_class`, and the scan moved to `end`.
    pub open spec fn past_token(self, token_class: TokenClass, end: int) -> LexerState {
        self.with_token(token_class, self.input.subrange(self.pos, end)).moved(
            end,
            self.row,
            self.col + end - self.pos,
        )
    }

    /// The error for the character at which the scan stands.
    pub open spec fn unexpected(self) -> SpecLexerError {
        SpecLexerError::UnexpectedCharacter { char: seq![self.next()], meta: self.meta() }
    }

    /// The scan of what is left of the text.
    pub open spec fn rest(self) -> Scan {
        lex(self.input, self.pos, self.row, self.col)
    }
}

/// A scanner over one source text. The tokens it makes gather in `tokens`.
#[derive(Debug)]
pub struct Lexer {
    pub tokens: Vec<Token>,
    /// The text.
    input: String,
    /// The characters of the text once more, to be read by their index. A
    /// well-formed lexer holds the same characters here as in `input`, so the
    /// state of the lexer names the text once.
    chars: Vec<char>,
    /// How many characters the scan has passed, and where it stands.
    pos: usize,
    row: usize,
    col: usize,
}

impl View for Lexer {
    type V = LexerState;

    closed spec fn view(&self) -> LexerState {
        LexerState {
            input: self.input@,
            pos: self.pos as int,
            row: self.row as int,
            col: self.col as int,
            tokens: spec_tokens(self.tokens@),
        }
    }
}

/// The characters of `text`, in order.
fn characters(text: &str) -> (chars: Vec<char>)
    ensures
        chars@ == text@,
{
    let mut chars: Vec<char> = Vec::new();
    for c in it: text.chars()
        invariant
            chars@ == it.seq().take(it.index@),
            it.seq() == text@,
    {
        chars.push(c);
    }
    chars
}

impl Lexer {
    /// The scan stands inside the text, and rows and columns count no more
    /// characters than the scan has passed.
    pub closed spec fn well_formed(&self) -> bool {
        &&& self.chars@ == self.input@
        &&& self.pos <= self.chars@.len() <= usize::MAX
        &&& self.row + self.col <= self.pos
    }

    /// A scanner at the start of `input`, without tokens.
    pub fn new(input: String) -> (lexer: Lexer)
        ensures
            lexer.well_formed(),
            lexer@ == (LexerState { input: input@, pos: 0, row: 0, col: 0, tokens: Seq::empty() }),
    {
        let chars = characters(input.as_str());
        assert(chars@.len() == chars.len());
        let lexer = Lexer { tokens: Vec::new(), input, chars, pos: 0, row: 0, col: 0 };
        assert(spec_tokens(lexer.tokens@) =~= Seq::empty());
        lexer
    }

    /// The tokens made so far.
    pub fn tokens(&self) -> (tokens: &Vec<Token>)
        ensures
            spec_tokens(tokens@) == self@.tokens,
    {
        &self.tokens
    }

    /// Passes a newline: the scan moves one character on, to the start of
    /// the next row.
    fn new_line(&mut self)
        requires
            old(self).well_formed(),
            old(self)@.pos < old(self)@.input.len(),
        ensures
            final(self).well_formed(),
            final(self)@ == old(self)@.moved(old(self)@.pos + 1, old(self)@.row + 1, 0),
            final(self).tokens == old(self).tokens,
    {
        self.pos += 1;
        self.row += 1;
        self.col = 0;
    }

    /// Moves the scan `by` characters on in its row.
    fn advance(&mut self, by: usize)
        requires
            old(self).well_formed(),
            old(self)@.pos + by <= old(self)@.input.len(),
        ensures
            final(self).well_formed(),
            final(self)@ == old(self)@.moved(
                old(self)@.pos + by,
                old(self)@.row,
                old(self)@.col + by,
            ),
            final(self).tokens == old(self).tokens,
    {
        self.pos += by;
        self.col += by;
    }

    /// The character at the scan's position.
    pub fn peek(&self) -> (next: Result<char, LexerError>)
        requires
            self.well_formed(),
        ensures
            self@.pos < self@.input.len() ==> next == Ok::<char, LexerError>(
                self@.input[self@.pos],
            ),
            self@.pos >= self@.input.len() ==> next == Err::<char, LexerError>(
                LexerError::UnexpectedEndOfFile { meta: self@.meta() },
            ),
    {
        self.peek_at(self.pos)
    }

    /// The character at position `at` of the text.
    pub fn peek_at(&self, at: usize) -> (next: Result<char, LexerError>)
        requires
            self.well_formed(),
        ensures
            at < self@.input.len() ==> next == Ok::<char, LexerError>(self@.input[at as int]),
            at >= self@.input.len() ==> next == Err::<char, LexerError>(
                LexerError::UnexpectedEndOfFile { meta: self@.meta() },
            ),
    {
        if at < self.chars.len() {
            Ok(self.chars[at])
        } else {
            Err(
                LexerError::UnexpectedEndOfFile {
                    meta: TokenMeta { row: self.row, col: self.col },
                },
            )
        }
    }

    /// The error for the character at the scan's position.
    fn create_unexpected_char_err(&self) -> (err: LexerError)
        requires
            self.well_formed(),
            self@.pos < self@.input.len(),
        ensures
            err@ == self@.unexpected(),
    {
        let lexeme = self.input.as_str().substring_char(self.pos, self.pos + 1).to_owned();
        assert(lexeme@ =~= seq![self@.next()]);
        LexerError::UnexpectedCharacter {
            char: lexeme,
            meta: TokenMeta { row: self.row, col: self.col },
        }
    }

    /// Adds a token that begins at the scan's position.
    fn push_token(&mut self, token_class: TokenClass, lexeme: &str)
        requires
            old(self).well_formed(),
        ensures
            final(self).well_formed(),
            final(self)@ == old(self)@.with_token(token_class, lexeme@),
    {
        self.tokens.push(
            Token {
                token_class,
                lexeme: lexeme.to_owned(),
                meta: TokenMeta { row: self.row, col: self.col },
            },
        );
        assert(spec_tokens(self.tokens@) =~= spec_tokens(old(self).tokens@).push(
            token_at(token_class, lexeme@, old(self)@.row, old(self)@.col),
        ));
    }

    /// Adds the token of the punctuation character at which the scan
    /// stands, and moves past it.
    fn push_punctuation(&mut self, token_class: TokenClass, lexeme: &str)
        requires
            old(self).well_formed(),
            old(self)@.pos < old(self)@.input.len(),
            lexeme@ == seq![old(self)@.next()],
        ensures
            final(self).well_formed(),
            final(self)@ == old(self)@.past_token(token_class, old(self)@.pos + 1),
    {
        assert(self@.input.subrange(self@.pos, self@.pos + 1) =~= lexeme@);
        self.push_token(token_class, lexeme);
        self.advance(1);
    }

    /// Scans the delimiter `c`, at which the scan stands.
    fn scan_delimiter(&mut self, c: char) -> (done: Result<(), LexerError>)
        requires
            old(self).well_formed(),
            old(self)@.pos < old(self)@.input.len(),
            old(self)@.next() == c,
        ensures
            final(self).well_formed(),
            final(self)@ == if c == ';' {
                old(self)@.past_token(punctuation(c)->0, old(self)@.pos + 1)
            } else {
                old(self)@
            },
            match done {
                Ok(_) => c == ';',
                Err(err) => c != ';' && err@ == old(self)@.unexpected(),
            },
    {
        if c == ';' {
            proof {
                reveal_strlit(";");
            }
            assert(";"@ =~= seq![c]);
            self.push_punctuation(TokenClass::Delim(DelimToken::Semicolon), ";");
        } else {
            return Err(self.create_unexpected_char_err());
        }
        Ok(())
    }

    /// Scans the parenthesis or equals sign `c`, at which the scan stands.
    fn scan_op(&mut self, c: char) -> (done: Result<(), LexerError>)
        requires
            old(self).well_formed(),
            old(self)@.pos < old(self)@.input.len(),
            old(self)@.next() == c,
        ensures
            final(self).well_formed(),
            final(self)@ == if c == '(' || c == ')' || c == '=' {
                old(self)@.past_token(punctuation(c)->0, old(self)@.pos + 1)
            } else {
                old(self)@
            },
            match done {
                Ok(_) => c == '(' || c == ')' || c == '=',
                Err(err) => !(c == '(' || c == ')' || c == '=') && err@ == old(self)@.unexpected(),
            },
    {
        if c == '(' {
            proof {
                reveal_strlit("(");
            }
            assert("("@ =~= seq![c]);
            self.push_punctuation(TokenClass::Op(OpToken::LeftParen), "(");
        } else if c == ')' {
            proof {
                reveal_strlit(")");
            }
            assert(")"@ =~= seq![c]);
            self.push_punctuation(TokenClass::Op(OpToken::RightParen), ")");
        } else if c == '=' {
            proof {
                reveal_strlit("=");
            }
            assert("="@ =~= seq![c]);
            self.push_punctuation(TokenClass::Op(OpToken::Eq), "=");
        } else {
            return Err(self.create_unexpected_char_err());
        }
        Ok(())
    }

    /// Scans the arithmetic operator `c`, at which the scan stands.
    fn scan_binary_op(&mut self, c: char) -> (done: Result<(), LexerError>)
        requires
            old(self).well_formed(),
            old(self)@.pos < old(self)@.input.len(),
            old(self)@.next() == c,
        ensures
            final(self).well_formed(),
            final(self)@ == if c == '+' || c == '-' || c == '/' || c == '*' {
                old(self)@.past_token(punctuation(c)->0, old(self)@.pos + 1)
            } else {
                old(self)@
            },
            match done {
                Ok(_) => c == '+' || c == '-' || c == '/' || c == '*',
                Err(err) => !(c == '+' || c == '-' || c == '/' || c == '*') && err@ == old(
                    self
                )@.unexpected(),
            },
    {
        if c == '+' {
            proof {
                reveal_strlit("+");
            }
            assert("+"@ =~= seq![c]);
            self.push_punctuation(TokenClass::Op(OpToken::Plus), "+");
        } else if c == '-' {
            proof {
                reveal_strlit("-");
            }
            assert("-"@ =~= seq![c]);
            self.push_punctuation(TokenClass::Op(OpToken::Min), "-");
        } else if c == '/' {
            proof {
                reveal_strlit("/");
            }
            assert("/"@ =~= seq![c]);
            self.push_punctuation(TokenClass::Op(OpToken::Slash), "/");
        } else if c == '*' {
            proof {
                reveal_strlit("*");
            }
            assert("*"@ =~= seq![c]);
            self.push_punctuation(TokenClass::Op(OpToken::Star), "*");
        } else {
            return Err(self.create_unexpected_char_err());
        }
        Ok(())
    }

    /// Scans the numeric literal that begins with the digit at which the
    /// scan stands.
    fn scan_num_lit(&mut self) -> (done: Result<(), LexerError>)
        requires
            old(self).well_formed(),
            old(self)@.pos < old(self)@.input.len(),
        ensures
            final(self).well_formed(),
            match numeral_end(old(self)@.input, old(self)@.pos + 1, false) {
                Some(end) => done is Ok && final(self)@ == old(self)@.past_token(
                    TokenClass::Atom(AtomToken::NumericLit),
                    end,
                ),
                None => final(self)@ == old(self)@ && done is Err && done->Err_0@ == (
                SpecLexerError::InvalidNumericLit { char: seq!['.'], meta: old(self)@.meta() }),
            },
    {
        let mut end: usize = self.pos + 1;
        let mut is_float = false;

        while end < self.chars.len()
            invariant
                self.well_formed(),
                *self == *old(self),
                self.pos < end <= self.chars@.len(),
                numeral_end(self@.input, end as int, is_float) == numeral_end(
                    self@.input,
                    self@.pos + 1,
                    false,
                ),
            ensures
                numeral_end(self@.input, self@.pos + 1, false) == Some(end as int),
            decreases self.chars@.len() - end,
        {
            let curr = self.chars[end];
            if curr >= '0' && curr <= '9' {
                end += 1;
            } else if curr == '.' {
                if is_float {
                    proof {
                        reveal_strlit(".");
                    }
                    assert("."@ =~= seq!['.']);
                    return Err(
                        LexerError::InvalidNumericLit {
                            char: ".".to_owned(),
                            meta: TokenMeta { row: self.row, col: self.col },
                        },
                    );
                }
                is_float = true;
                end += 1;
            } else {
                break ;
            }
        }

        let delta = end - self.pos;
        let lexeme = self.input.as_str().substring_char(self.pos, end).to_owned();
        self.push_token(TokenClass::Atom(AtomToken::NumericLit), lexeme.as_str());
        self.advance(delta);

        Ok(())
    }

    /// Scans the word that begins at the scan's position as the keyword, if
    /// it spells it, and as an identifier otherwise.
    fn scan_keyword(&mut self) -> (done: Result<(), LexerError>)
        requires
            old(self).well_formed(),
            old(self)@.pos < old(self)@.input.len(),
        ensures
            final(self).well_formed(),
            done is Ok,
            ({
                let end = word_end(old(self)@.input, old(self)@.pos + 1);
                let word = old(self)@.input.subrange(old(self)@.pos, end);
                final(self)@ == old(self)@.past_token(word_class(word), end)
            }),
    {
        let at = self.pos;
        let n = self.chars.len();
        proof {
            lemma_word_end_bounds(self@.input, at + 1);
            if at + 1 < n {
                lemma_word_end_bounds(self@.input, at + 2);
            }
            if at + 2 < n {
                lemma_word_end_bounds(self@.input, at + 3);
            }
        }
        let spells = n - at >= 3 && self.chars[at] == 'l' && self.chars[at + 1] == 'e'
            && self.chars[at + 2] == 't';
        let ends = spells && (at + 3 == n || self.chars[at + 3] == ' ' || self.chars[at + 3]
            == '\n');
        if ends {
            proof {
                reveal_strlit("let");
                let end = word_end(self@.input, at + 1);
                assert(end == at + 3);
                assert(self@.input.subrange(at as int, end) =~= keyword_let());
            }
            assert("let"@ =~= keyword_let());
            self.push_token(TokenClass::Keyword(KeywordToken::Let), "let");
            self.advance(3);
        } else {
            proof {
                let end = word_end(self@.input, at + 1);
                let word = self@.input.subrange(at as int, end);
                if word == keyword_let() {
                    assert(word.len() == 3);
                    assert(word[0] == 'l' && word[1] == 'e' && word[2] == 't');
                    assert(false);
                }
            }
            return self.scan_identifier();
        }

        Ok(())
    }

    /// Scans the word that begins at the scan's position as an identifier.
    fn scan_identifier(&mut self) -> (done: Result<(), LexerError>)
        requires
            old(self).well_formed(),
            old(self)@.pos < old(self)@.input.len(),
        ensures
            final(self).well_formed(),
            done is Ok,
            final(self)@ == old(self)@.past_token(
                TokenClass::Atom(AtomToken::Identifier),
                word_end(old(self)@.input, old(self)@.pos + 1),
            ),
    {
        let mut end: usize = self.pos + 1;

        while end < self.chars.len()
            invariant
                self.well_formed(),
                *self == *old(self),
                self.pos < end <= self.chars@.len(),
                word_end(self@.input, end as int) == word_end(self@.input, self@.pos + 1),
            ensures
                word_end(self@.input, self@.pos + 1) == end,
            decreases self.chars@.len() - end,
        {
            let curr = self.chars[end];
            if curr == ' ' || curr == '\n' {
                break ;
            }
            end += 1;
        }

        let delta = end - self.pos;
        let lexeme = self.input.as_str().substring_char(self.pos, end).to_owned();
        self.push_token(TokenClass::Atom(AtomToken::Identifier), lexeme.as_str());
        self.advance(delta);

        Ok(())
    }

    /// Scans what is left of the text and adds its tokens to `tokens`.
    ///
    /// On success the tokens of the rest of the text have been added, the
    /// end-of-input token last, and the scan stands at the end of the text.
    /// On failure the tokens before the one that could not be scanned have
    /// been added, and the scan stands where that one begins.
    pub fn tokenize(&mut self) -> (done: Result<(), LexerError>)
        requires
            old(self).well_formed(),
        ensures
            final(self).well_formed(),
            final(self)@ == (LexerState {
                input: old(self)@.input,
                pos: old(self)@.rest().pos,
                row: old(self)@.rest().row,
                col: old(self)@.rest().col,
                tokens: old(self)@.tokens + old(self)@.rest().tokens,
            }),
            match done {
                Ok(_) => old(self)@.rest().error is None && final(self)@.pos == final(
                    self
                )@.input.len(),
                Err(err) => old(self)@.rest().error == Some(err@),
            },
    {
        while self.pos < self.chars.len()
            invariant
                self.well_formed(),
                self@.input == old(self)@.input,
                self@.tokens + self@.rest().tokens == old(self)@.tokens + old(self)@.rest().tokens,
                self@.rest().error == old(self)@.rest().error,
                self@.rest().pos == old(self)@.rest().pos,
                self@.rest().row == old(self)@.rest().row,
                self@.rest().col == old(self)@.rest().col,
            decreases self.chars@.len() - self.pos,
        {
            let ghost before = self@;
            let c = self.chars[self.pos];
            proof {
                lemma_numeral_end_bounds(before.input, before.pos + 1, false);
                lemma_word_end_bounds(before.input, before.pos + 1);
                assert(before.input.subrange(before.pos, before.pos + 1) =~= seq![c]);
            }
            let step = if c == ' ' {
                self.advance(1);
                Ok(())
            } else if c == '\n' {
                self.new_line();
                Ok(())
            } else if c == ';' {
                self.scan_delimiter(c)
            } else if c == '(' || c == ')' || c == '=' {
                self.scan_op(c)
            } else if c == '+' || c == '-' || c == '/' || c == '*' {
                self.scan_binary_op(c)
            } else if c >= '0' && c <= '9' {
                self.scan_num_lit()
            } else if (c >= 'a' && c <= 'z') || (c >= 'A' && c <= 'Z') || c == '_' {
                self.scan_keyword()
            } else {
                Err(self.create_unexpected_char_err())
            };
            match step {
                Ok(_) => {
                    assert(before.tokens + before.rest().tokens =~= self@.tokens
                        + self@.rest().tokens);
                },
                Err(err) => {
                    assert(before.rest().tokens =~= Seq::empty());
                    assert(self@.tokens =~= old(self)@.tokens + old(self)@.rest().tokens);
                    return Err(err);
                },
            }
        }

        let ghost before = self@;
        self.push_token(TokenClass::Delim(DelimToken::EoF), "");
        proof {
            reveal_strlit("");
            assert(""@ =~= Seq::<char>::empty());
            assert(self@.tokens =~= before.tokens + before.rest().tokens);
        }

        Ok(())
    }
}

/// A scan that meets no error ends with the end-of-input token, and holds no
/// other.
pub proof fn lemma_scan_ends_with_eof(input: Seq<char>, pos: int, row: int, col: int)
    requires
        0 <= pos <= input.len(),
        lex(input, pos, row, col).error is None,
    ensures
        lex(input, pos, row, col).tokens.len() >= 1,
        lex(input, pos, row, col).tokens.last().token_class == TokenClass::Delim(DelimToken::EoF),
        forall|i: int|
            0 <= i < lex(input, pos, row, col).tokens.len() - 1 ==> (#[trigger] lex(
                input,
                pos,
                row,
                col,
            ).tokens[i]).token_class != TokenClass::Delim(DelimToken::EoF),
    decreases input.len() - pos,
{
    if pos < input.len() {
        let c = input[pos];
        lemma_numeral_end_bounds(input, pos + 1, false);
        lemma_word_end_bounds(input, pos + 1);
        if c == ' ' {
            lemma_scan_ends_with_eof(input, pos + 1, row, col + 1);
        } else if c == '\n' {
            lemma_scan_ends_with_eof(input, pos + 1, row + 1, 0);
        } else if punctuation(c) is Some {
            lemma_scan_ends_with_eof(input, pos + 1, row, col + 1);
        } else if is_digit(c) {
            let end = numeral_end(input, pos + 1, false)->0;
            lemma_scan_ends_with_eof(input, end, row, col + end - pos);
        } else if starts_word(c) {
            let end = word_end(input, pos + 1);
            lemma_scan_ends_with_eof(input, end, row, col + end - pos);
        }
    }
}

} // verus!
