//! What holds of every scan.

use crate::lexer::{
    is_digit, is_space, keyword_let, lemma_numeral_end_bounds, lemma_word_end_bounds, lex,
    lex_all, numeral_end, punctuation, starts_word, word_end, AtomToken, DelimToken, KeywordToken,
    SpecToken, TokenClass,
};
use vstd::prelude::*;

verus! {

/// A numeral: digits, with at most one dot among or after them.
pub open spec fn is_numeral(lexeme: Seq<char>) -> bool {
    &&& lexeme.len() > 0
    &&& is_digit(lexeme[0])
    &&& forall|i: int| 0 <= i < lexeme.len() ==> is_digit(#[trigger] lexeme[i]) || lexeme[i] == '.'
    &&& forall|i: int, j: int|
        0 <= i < j < lexeme.len() ==> !(#[trigger] lexeme[i] == '.' && #[trigger] lexeme[j] == '.')
}

/// A word: a letter or an underscore, and characters other than spaces
/// after it.
pub open spec fn is_word(lexeme: Seq<char>) -> bool {
    &&& lexeme.len() > 0
    &&& starts_word(lexeme[0])
    &&& forall|i: int| 0 <= i < lexeme.len() ==> !is_space(#[trigger] lexeme[i])
}

/// The lexeme of the token is one of its class: a numeric literal is a
/// numeral, the keyword spells `let`, an identifier is any other word, a
/// delimiter or an operator is its one character, and the end of the input
/// is empty.
pub open spec fn spelled_by_class(token: SpecToken) -> bool {
    match token.token_class {
        TokenClass::Atom(AtomToken::NumericLit) => is_numeral(token.lexeme),
        TokenClass::Atom(AtomToken::Identifier) => is_word(token.lexeme) && token.lexeme
            != keyword_let(),
        TokenClass::Keyword(KeywordToken::Let) => token.lexeme == keyword_let(),
        TokenClass::Delim(DelimToken::EoF) => token.lexeme.len() == 0,
        _ => token.lexeme.len() == 1 && punctuation(token.lexeme[0]) == Some(token.token_class),
    }
}

/// The lexemes of `tokens`, one after the other.
pub open spec fn spelling(tokens: Seq<SpecToken>) -> Seq<char>
    decreases tokens.len(),
{
    if tokens.len() == 0 {
        Seq::empty()
    } else {
        tokens[0].lexeme + spelling(tokens.drop_first())
    }
}

/// The characters of `input` from `from` up to `to` that are no spaces.
pub open spec fn without_spaces(input: Seq<char>, from: int, to: int) -> Seq<char> {
    input.subrange(from, to).filter(|c: char| !is_space(c))
}

/// The run that a numeral ends holds digits and dots only, and no two dots;
/// it holds no dot at all if one was seen before it.
proof fn lemma_numeral_run(input: Seq<char>, at: int, seen_dot: bool)
    requires
        0 <= at <= input.len(),
        numeral_end(input, at, seen_dot) is Some,
    ensures
        ({
            let end = numeral_end(input, at, seen_dot)->0;
            &&& at <= end <= input.len()
            &&& forall|i: int| at <= i < end ==> is_digit(#[trigger] input[i]) || input[i] == '.'
            &&& seen_dot ==> forall|i: int| at <= i < end ==> #[trigger] input[i] != '.'
            &&& forall|i: int, j: int|
                at <= i < j < end ==> !(#[trigger] input[i] == '.' && #[trigger] input[j] == '.')
        }),
    decreases input.len() - at,
{
    if at < input.len() {
        if is_digit(input[at]) {
            lemma_numeral_run(input, at + 1, seen_dot);
        } else if input[at] == '.' && !seen_dot {
            lemma_numeral_run(input, at + 1, true);
        }
    }
}

/// A range of characters other than spaces is kept whole.
proof fn lemma_without_spaces_keeps(input: Seq<char>, from: int, to: int)
    requires
        0 <= from <= to <= input.len(),
        forall|i: int| from <= i < to ==> !is_space(#[trigger] input[i]),
    ensures
        without_spaces(input, from, to) == input.subrange(from, to),
    decreases to - from,
{
    reveal(Seq::filter);
    let keep = |c: char| !is_space(c);
    if from < to {
        lemma_without_spaces_keeps(input, from, to - 1);
        assert(input.subrange(from, to).drop_last() =~= input.subrange(from, to - 1));
        assert(input.subrange(from, to - 1).push(input[to - 1]) =~= input.subrange(from, to));
    } else {
        assert(input.subrange(from, to) =~= Seq::empty());
    }
}

/// What is kept of a range is what is kept of its two parts.
proof fn lemma_without_spaces_splits(input: Seq<char>, from: int, mid: int, to: int)
    requires
        0 <= from <= mid <= to <= input.len(),
    ensures
        without_spaces(input, from, to) == without_spaces(input, from, mid) + without_spaces(
            input,
            mid,
            to,
        ),
{
    let keep = |c: char| !is_space(c);
    assert(input.subrange(from, to) =~= input.subrange(from, mid) + input.subrange(mid, to));
    Seq::filter_distributes_over_add(input.subrange(from, mid), input.subrange(mid, to), keep);
}

/// Nothing is kept of a space.
proof fn lemma_without_spaces_drops(input: Seq<char>, at: int)
    requires
        0 <= at < input.len(),
        is_space(input[at]),
    ensures
        without_spaces(input, at, at + 1) == Seq::<char>::empty(),
{
    reveal_with_fuel(Seq::filter, 2);
    assert(input.subrange(at, at + 1).drop_last() =~= Seq::empty());
}

/// A scan has no more tokens than the text has characters, but for the end
/// of the input.
pub proof fn lemma_tokens_are_no_more_than_characters(
    input: Seq<char>,
    pos: int,
    row: int,
    col: int,
)
    requires
        0 <= pos <= input.len(),
    ensures
        lex(input, pos, row, col).tokens.len() <= input.len() - pos + 1,
    decreases input.len() - pos,
{
    if pos < input.len() {
        let c = input[pos];
        lemma_numeral_end_bounds(input, pos + 1, false);
        lemma_word_end_bounds(input, pos + 1);
        if c == ' ' {
            lemma_tokens_are_no_more_than_characters(input, pos + 1, row, col + 1);
        } else if c == '\n' {
            lemma_tokens_are_no_more_than_characters(input, pos + 1, row + 1, 0);
        } else if punctuation(c) is Some {
            lemma_tokens_are_no_more_than_characters(input, pos + 1, row, col + 1);
        } else if is_digit(c) {
            if numeral_end(input, pos + 1, false) is Some {
                let end = numeral_end(input, pos + 1, false)->0;
                lemma_tokens_are_no_more_than_characters(input, end, row, col + end - pos);
            }
        } else if starts_word(c) {
            let end = word_end(input, pos + 1);
            lemma_tokens_are_no_more_than_characters(input, end, row, col + end - pos);
        }
    }
}

/// Every token of a scan is spelled as its class asks.
pub proof fn lemma_tokens_spelled_by_class(input: Seq<char>, pos: int, row: int, col: int)
    requires
        0 <= pos <= input.len(),
    ensures
        forall|i: int|
            0 <= i < lex(input, pos, row, col).tokens.len() ==> spelled_by_class(
                #[trigger] lex(input, pos, row, col).tokens[i],
            ),
    decreases input.len() - pos,
{
    let scan = lex(input, pos, row, col);
    if pos < input.len() {
        let c = input[pos];
        lemma_numeral_end_bounds(input, pos + 1, false);
        lemma_word_end_bounds(input, pos + 1);
        if c == ' ' {
            lemma_tokens_spelled_by_class(input, pos + 1, row, col + 1);
        } else if c == '\n' {
            lemma_tokens_spelled_by_class(input, pos + 1, row + 1, 0);
        } else if punctuation(c) is Some {
            lemma_tokens_spelled_by_class(input, pos + 1, row, col + 1);
            let rest = lex(input, pos + 1, row, col + 1);
            assert forall|i: int| 0 <= i < scan.tokens.len() implies spelled_by_class(
                #[trigger] scan.tokens[i],
            ) by {
                if i > 0 {
                    assert(scan.tokens[i] == rest.tokens[i - 1]);
                }
            }
        } else if is_digit(c) {
            if numeral_end(input, pos + 1, false) is Some {
                let end = numeral_end(input, pos + 1, false)->0;
                lemma_numeral_run(input, pos + 1, false);
                lemma_tokens_spelled_by_class(input, end, row, col + end - pos);
                let rest = lex(input, end, row, col + end - pos);
                let lexeme = input.subrange(pos, end);
                assert(is_numeral(lexeme)) by {
                    assert forall|i: int| 0 <= i < lexeme.len() implies is_digit(
                        #[trigger] lexeme[i],
                    ) || lexeme[i] == '.' by {
                        assert(lexeme[i] == input[pos + i]);
                    }
                    assert forall|i: int, j: int| 0 <= i < j < lexeme.len() implies !(
                    #[trigger] lexeme[i] == '.' && #[trigger] lexeme[j] == '.') by {
                        assert(lexeme[i] == input[pos + i]);
                        assert(lexeme[j] == input[pos + j]);
                    }
                }
                assert forall|i: int| 0 <= i < scan.tokens.len() implies spelled_by_class(
                    #[trigger] scan.tokens[i],
                ) by {
                    if i > 0 {
                        assert(scan.tokens[i] == rest.tokens[i - 1]);
                    }
                }
            }
        } else if starts_word(c) {
            let end = word_end(input, pos + 1);
            lemma_tokens_spelled_by_class(input, end, row, col + end - pos);
            let rest = lex(input, end, row, col + end - pos);
            let lexeme = input.subrange(pos, end);
            assert(is_word(lexeme)) by {
                assert forall|i: int| 0 <= i < lexeme.len() implies !is_space(
                    #[trigger] lexeme[i],
                ) by {
                    assert(lexeme[i] == input[pos + i]);
                }
            }
            assert forall|i: int| 0 <= i < scan.tokens.len() implies spelled_by_class(
                #[trigger] scan.tokens[i],
            ) by {
                if i > 0 {
                    assert(scan.tokens[i] == rest.tokens[i - 1]);
                }
            }
        }
    }
}

/// The tokens of a scan spell the text that was scanned, without its spaces
/// and newlines: nothing of the text is lost and nothing is made up.
pub proof fn lemma_tokens_spell_the_text(input: Seq<char>, pos: int, row: int, col: int)
    requires
        0 <= pos <= input.len(),
    ensures
        pos <= lex(input, pos, row, col).pos <= input.len(),
        spelling(lex(input, pos, row, col).tokens) == without_spaces(
            input,
            pos,
            lex(input, pos, row, col).pos,
        ),
    decreases input.len() - pos,
{
    let scan = lex(input, pos, row, col);
    reveal_with_fuel(spelling, 2);
    if pos < input.len() {
        let c = input[pos];
        lemma_numeral_end_bounds(input, pos + 1, false);
        lemma_word_end_bounds(input, pos + 1);
        if c == ' ' || c == '\n' {
            let rest = if c == ' ' {
                lex(input, pos + 1, row, col + 1)
            } else {
                lex(input, pos + 1, row + 1, 0)
            };
            if c == ' ' {
                lemma_tokens_spell_the_text(input, pos + 1, row, col + 1);
            } else {
                lemma_tokens_spell_the_text(input, pos + 1, row + 1, 0);
            }
            lemma_without_spaces_drops(input, pos);
            lemma_without_spaces_splits(input, pos, pos + 1, rest.pos);
            assert(Seq::<char>::empty() + without_spaces(input, pos + 1, rest.pos)
                =~= without_spaces(input, pos + 1, rest.pos));
        } else if punctuation(c) is Some || (is_digit(c) && numeral_end(input, pos + 1, false)
            is Some) || (!is_digit(c) && starts_word(c)) {
            let end = if punctuation(c) is Some {
                pos + 1
            } else if is_digit(c) {
                numeral_end(input, pos + 1, false)->0
            } else {
                word_end(input, pos + 1)
            };
            let rest = if punctuation(c) is Some {
                lex(input, pos + 1, row, col + 1)
            } else {
                lex(input, end, row, col + end - pos)
            };
            if punctuation(c) is Some {
                lemma_tokens_spell_the_text(input, pos + 1, row, col + 1);
                assert(input.subrange(pos, end) =~= seq![c]);
            } else {
                lemma_tokens_spell_the_text(input, end, row, col + end - pos);
                if is_digit(c) {
                    lemma_numeral_run(input, pos + 1, false);
                }
            }
            assert(scan.tokens[0].lexeme == input.subrange(pos, end));
            assert(scan.tokens.drop_first() =~= rest.tokens);
            lemma_without_spaces_keeps(input, pos, end);
            lemma_without_spaces_splits(input, pos, end, rest.pos);
        } else {
            assert(input.subrange(pos, pos) =~= Seq::empty());
            reveal(Seq::filter);
        }
    } else {
        assert(scan.tokens.drop_first() =~= Seq::empty());
        assert(input.subrange(pos, pos) =~= Seq::empty());
        reveal(Seq::filter);
        assert(Seq::<char>::empty() + Seq::<char>::empty() =~= Seq::<char>::empty());
    }
}

/// A scan that meets no error ends at the end of the text.
pub proof fn lemma_scan_reaches_the_end(input: Seq<char>, pos: int, row: int, col: int)
    requires
        0 <= pos <= input.len(),
        lex(input, pos, row, col).error is None,
    ensures
        lex(input, pos, row, col).pos == input.len(),
    decreases input.len() - pos,
{
    if pos < input.len() {
        let c = input[pos];
        lemma_numeral_end_bounds(input, pos + 1, false);
        lemma_word_end_bounds(input, pos + 1);
        if c == ' ' {
            lemma_scan_reaches_the_end(input, pos + 1, row, col + 1);
        } else if c == '\n' {
            lemma_scan_reaches_the_end(input, pos + 1, row + 1, 0);
        } else if punctuation(c) is Some {
            lemma_scan_reaches_the_end(input, pos + 1, row, col + 1);
        } else if is_digit(c) {
            let end = numeral_end(input, pos + 1, false)->0;
            lemma_scan_reaches_the_end(input, end, row, col + end - pos);
        } else if starts_word(c) {
            let end = word_end(input, pos + 1);
            lemma_scan_reaches_the_end(input, end, row, col + end - pos);
        }
    }
}

/// The tokens of a text that scans spell the whole text without its spaces
/// and newlines.
pub proof fn theorem_scan_spells_the_whole_text(input: Seq<char>)
    requires
        lex_all(input).error is None,
    ensures
        lex_all(input).pos == input.len(),
        spelling(lex_all(input).tokens) == input.filter(|c: char| !is_space(c)),
{
    lemma_scan_reaches_the_end(input, 0, 0, 0);
    lemma_tokens_spell_the_text(input, 0, 0, 0);
    assert(input.subrange(0, input.len() as int) =~= input);
}

} // verus!
