//! What the token sequence of a text is, stated over sequences of
//! characters. The lexer's contracts and the laws about it speak in these
//! terms.

use vstd::prelude::*;

use crate::diags::diag::DiagModel;
use crate::diags::diagbag::illegal_char_report;
use crate::lexer::token::TokenKind;
use crate::lexer::token::TokenModel;
use crate::text::char_is_numeric;
use crate::text::char_is_whitespace;
use crate::text::utf8_len;

verus! {

/// The class of the token that the character `c` starts, given whether the
/// character is numeric. The fixed symbols are recognised first, so the
/// answer for them does not depend on `numeric`.
pub open spec fn kind_of(c: char, numeric: bool) -> TokenKind {
    if c == '\0' {
        TokenKind::EOF
    } else if c == '+' {
        TokenKind::Plus
    } else if c == '-' {
        TokenKind::Minus
    } else if c == '*' {
        TokenKind::Star
    } else if c == '/' {
        TokenKind::Slash
    } else if c == '(' {
        TokenKind::OpenParen
    } else if c == ')' {
        TokenKind::CloseParen
    } else if numeric {
        TokenKind::Number
    } else {
        TokenKind::Illegal
    }
}

/// The class of the token that starts at character index `i` of `s`.
pub open spec fn kind_at(s: Seq<char>, i: int) -> TokenKind {
    kind_of(s[i], char_is_numeric(s[i]))
}

/// How many whitespace characters stand in a row from index `i` on.
pub open spec fn whitespace_run(s: Seq<char>, i: int) -> nat
    decreases s.len() - i,
{
    if 0 <= i < s.len() && char_is_whitespace(s[i]) {
        1 + whitespace_run(s, i + 1)
    } else {
        0
    }
}

/// How many numeric characters stand in a row from index `i` on.
pub open spec fn numeric_run(s: Seq<char>, i: int) -> nat
    decreases s.len() - i,
{
    if 0 <= i < s.len() && char_is_numeric(s[i]) {
        1 + numeric_run(s, i + 1)
    } else {
        0
    }
}

/// How many characters the token that starts at index `i` is made of: a
/// number takes every numeric character that follows, anything else is a
/// single character.
pub open spec fn token_chars(s: Seq<char>, i: int) -> nat {
    if kind_at(s, i) == TokenKind::Number {
        1 + numeric_run(s, i + 1)
    } else {
        1
    }
}

/// Byte offset of the character index `i` in `s`.
pub open spec fn offset_of(s: Seq<char>, i: int) -> nat {
    utf8_len(s.take(i))
}

/// The token that starts at character index `i` of `s`. Its literal is the
/// exact stretch of text it was made of.
pub open spec fn token_at(s: Seq<char>, i: int) -> TokenModel {
    let literal = s.subrange(i, i + token_chars(s, i));
    TokenModel { kind: kind_at(s, i), literal, pos: offset_of(s, i), len: utf8_len(literal) }
}

/// The end marker of `s`: it stands one past the last byte, and its literal
/// is the null character that stands for "no more input".
pub open spec fn end_token(s: Seq<char>) -> TokenModel {
    TokenModel { kind: TokenKind::EOF, literal: seq!['\0'], pos: utf8_len(s), len: 1 }
}

/// The tokens that a scan yields when its cursor stands at character index
/// `i`: whitespace is skipped, then either a token starts, or the text is
/// used up and the end marker closes the sequence.
pub open spec fn tokens_from(s: Seq<char>, i: int) -> Seq<TokenModel>
    decreases s.len() - i,
{
    let j = i + whitespace_run(s, i);
    if 0 <= j < s.len() {
        proof {
            lemma_numeric_run_bounded(s, j + 1);
        }
        seq![token_at(s, j)] + tokens_from(s, j + token_chars(s, j))
    } else {
        seq![end_token(s)]
    }
}

/// The whole token sequence of `s`: what a scan from the first character
/// yields. Every text, the empty one too, ends in exactly one end marker
/// that closes the sequence.
pub open spec fn tokens_of(s: Seq<char>) -> Seq<TokenModel> {
    tokens_from(s, 0)
}

/// The character indices at which the tokens of [`tokens_from`] start, one
/// for each token; the end marker counts as starting at the length of the
/// text.
pub open spec fn starts_from(s: Seq<char>, i: int) -> Seq<int>
    decreases s.len() - i,
{
    let j = i + whitespace_run(s, i);
    if 0 <= j < s.len() {
        proof {
            lemma_numeric_run_bounded(s, j + 1);
        }
        seq![j] + starts_from(s, j + token_chars(s, j))
    } else {
        seq![s.len() as int]
    }
}

/// The character indices at which the tokens of [`tokens_of`] start.
pub open spec fn starts_of(s: Seq<char>) -> Seq<int> {
    starts_from(s, 0)
}

/// Every character of `s` from index `from` up to, not including, index
/// `to` is whitespace.
pub open spec fn all_whitespace(s: Seq<char>, from: int, to: int) -> bool {
    forall|k: int| from <= k < to ==> char_is_whitespace(#[trigger] s[k])
}

/// Every character of `s` from index `from` up to, not including, index
/// `to` is numeric.
pub open spec fn all_numeric(s: Seq<char>, from: int, to: int) -> bool {
    forall|k: int| from <= k < to ==> char_is_numeric(#[trigger] s[k])
}

/// The literals of `tokens`, joined in order.
pub open spec fn literals(tokens: Seq<TokenModel>) -> Seq<char>
    decreases tokens.len(),
{
    if tokens.len() == 0 {
        Seq::empty()
    } else {
        tokens[0].literal + literals(tokens.drop_first())
    }
}

/// The text `s` with its whitespace characters left out.
pub open spec fn without_whitespace(s: Seq<char>) -> Seq<char> {
    s.filter(|c: char| !char_is_whitespace(c))
}

/// No numeric character of `s` is a whitespace character.
pub open spec fn numerics_are_not_whitespace(s: Seq<char>) -> bool {
    forall|k: int|
        0 <= k < s.len() && char_is_numeric(#[trigger] s[k]) ==> !char_is_whitespace(s[k])
}

/// What a scan files when it emits `token`: one complaint for an illegal
/// character, at the offset of that character, and nothing otherwise.
pub open spec fn report_for(token: TokenModel) -> Seq<DiagModel> {
    if token.kind == TokenKind::Illegal {
        seq![illegal_char_report(token.pos, token.literal[0])]
    } else {
        Seq::empty()
    }
}

/// The diagnostics that emitting `tokens` leaves behind, in arrival order.
pub open spec fn illegal_reports(tokens: Seq<TokenModel>) -> Seq<DiagModel>
    decreases tokens.len(),
{
    if tokens.len() == 0 {
        Seq::empty()
    } else {
        illegal_reports(tokens.drop_last()) + report_for(tokens.last())
    }
}

/// The tokens of `tokens` that stand for an illegal character, in order.
pub open spec fn illegal_tokens(tokens: Seq<TokenModel>) -> Seq<TokenModel> {
    tokens.filter(|t: TokenModel| t.kind == TokenKind::Illegal)
}

/// One step of a scan whose cursor stands at index `i`: where the next
/// token starts, what it is, and where the scan goes on.
pub proof fn lemma_tokens_from_step(s: Seq<char>, i: int)
    requires
        0 <= i <= s.len(),
    ensures
        ({
            let j = i + whitespace_run(s, i);
            &&& j <= s.len()
            &&& tokens_from(s, i).len() > 0
            &&& j < s.len() ==> {
                &&& tokens_from(s, i)[0] == token_at(s, j)
                &&& tokens_from(s, i).drop_first() == tokens_from(s, j + token_chars(s, j))
                &&& j + token_chars(s, j) <= s.len()
            }
            &&& j == s.len() ==> tokens_from(s, i) == seq![end_token(s)]
        }),
{
    let j = i + whitespace_run(s, i);
    lemma_whitespace_run_bounded(s, i);
    if j < s.len() {
        lemma_numeric_run_bounded(s, j + 1);
        assert(tokens_from(s, i).drop_first() =~= tokens_from(s, j + token_chars(s, j)));
    }
}

/// A run of whitespace ends within the text.
pub proof fn lemma_whitespace_run_bounded(s: Seq<char>, i: int)
    requires
        0 <= i <= s.len(),
    ensures
        i + whitespace_run(s, i) <= s.len(),
        forall|k: int| i <= k < i + whitespace_run(s, i) ==> char_is_whitespace(#[trigger] s[k]),
        i + whitespace_run(s, i) < s.len() ==> !char_is_whitespace(s[i + whitespace_run(s, i)]),
    decreases s.len() - i,
{
    if i < s.len() && char_is_whitespace(s[i]) {
        lemma_whitespace_run_bounded(s, i + 1);
    }
}

/// A run of numeric characters ends within the text.
pub proof fn lemma_numeric_run_bounded(s: Seq<char>, i: int)
    requires
        0 <= i <= s.len(),
    ensures
        i + numeric_run(s, i) <= s.len(),
        forall|k: int| i <= k < i + numeric_run(s, i) ==> char_is_numeric(#[trigger] s[k]),
        i + numeric_run(s, i) < s.len() ==> !char_is_numeric(s[i + numeric_run(s, i)]),
    decreases s.len() - i,
{
    if i < s.len() && char_is_numeric(s[i]) {
        lemma_numeric_run_bounded(s, i + 1);
    }
}

} // verus!
