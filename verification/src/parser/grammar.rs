//! What the parse of a token sequence is, stated over sequences of token
//! models. The parser's contracts and the laws about it speak in these
//! terms.

use vstd::prelude::*;

use crate::diags::diag::DiagModel;
use crate::diags::diagbag::unexpected_token_report;
use crate::diags::textspan::Span;
use crate::lexer::token::binary_precedence;
use crate::lexer::token::unary_precedence;
use crate::lexer::token::TokenKind;
use crate::lexer::token::TokenModel;
use crate::parser::node::Tree;

verus! {

/// The outcome of one grammar rule: the tree it built, how many tokens it
/// consumed, and the diagnostics it filed, in arrival order.
pub struct Parsed {
    pub tree: Tree,
    pub used: nat,
    pub diags: Seq<DiagModel>,
}

/// The outcome of requiring one token: the token that the rule goes on
/// with, whether one was consumed (1) or made up (0), and the diagnostics
/// filed.
pub struct Matched {
    pub token: TokenModel,
    pub used: nat,
    pub diags: Seq<DiagModel>,
}

/// The sequence is closed by an end marker.
pub open spec fn ends_with_eof(tokens: Seq<TokenModel>) -> bool {
    tokens.len() > 0 && tokens.last().kind == TokenKind::EOF
}

/// No token starts before one that precedes it in the sequence.
pub open spec fn in_order(tokens: Seq<TokenModel>) -> bool {
    forall|i: int, j: int|
        0 <= i <= j < tokens.len() ==> (#[trigger] tokens[i]).pos <= (#[trigger] tokens[j]).pos
}

/// What a parser asks of its input: tokens in source order, closed by an
/// end marker.
pub open spec fn parseable(tokens: Seq<TokenModel>) -> bool {
    ends_with_eof(tokens) && in_order(tokens)
}

/// The token under the cursor. A cursor past the last token stays on the
/// last token.
pub open spec fn current(tokens: Seq<TokenModel>, pos: nat) -> TokenModel {
    if pos < tokens.len() {
        tokens[pos as int]
    } else {
        tokens.last()
    }
}

/// The text that a token covers.
pub open spec fn span_of(token: TokenModel) -> Span {
    Span { start: token.pos, end: token.pos + token.len }
}

/// The stand-in for a missing token of class `kind`: empty, and placed
/// where the token found instead starts.
pub open spec fn placeholder(kind: TokenKind, found: TokenModel) -> TokenModel {
    TokenModel { kind, literal: Seq::empty(), pos: found.pos, len: 0 }
}

/// Requires a token of class `kind` under the cursor. If it is there, it is
/// consumed. If not, one diagnostic names the token found and the class
/// expected, at the span of the token found; nothing is consumed, and a
/// placeholder stands in.
pub open spec fn expect(tokens: Seq<TokenModel>, pos: nat, kind: TokenKind) -> Matched {
    let found = current(tokens, pos);
    if found.kind == kind {
        Matched { token: found, used: 1, diags: Seq::empty() }
    } else {
        Matched {
            token: placeholder(kind, found),
            used: 0,
            diags: seq![unexpected_token_report(span_of(found), found.kind, kind)],
        }
    }
}

/// The tokens from index `from` up to, not including, index `to`.
pub open spec fn consumed(tokens: Seq<TokenModel>, from: nat, to: nat) -> Seq<TokenModel> {
    tokens.subrange(from as int, to as int)
}

/// The tokens of `tokens` that are no parentheses, in order.
pub open spec fn without_parens(tokens: Seq<TokenModel>) -> Seq<TokenModel> {
    tokens.filter(
        |t: TokenModel| t.kind != TokenKind::OpenParen && t.kind != TokenKind::CloseParen,
    )
}

/// The tokens of `tokens` that cover text, in order: those of length 0,
/// as the parser makes them up where a token is missing, are left out.
pub open spec fn covering(tokens: Seq<TokenModel>) -> Seq<TokenModel> {
    tokens.filter(|t: TokenModel| t.len > 0)
}

/// Every token of `tokens` covers text.
pub open spec fn all_covering(tokens: Seq<TokenModel>) -> bool {
    forall|i: int| 0 <= i < tokens.len() ==> (#[trigger] tokens[i]).len > 0
}

/// How many tokens lie at or after the cursor.
pub open spec fn remaining(tokens: Seq<TokenModel>, pos: nat) -> nat {
    if pos < tokens.len() {
        (tokens.len() - pos) as nat
    } else {
        0
    }
}

/// An expression whose operators all bind tighter than `parent`: a head,
/// which is a sign applied to an expression at the sign's own strength, or
/// else a primary expression; followed by as many infix operators and
/// right operands as bind tighter than `parent`.
pub open spec fn parse_expr(tokens: Seq<TokenModel>, pos: nat, parent: int) -> Parsed
    decreases remaining(tokens, pos), 2nat,
    when ends_with_eof(tokens)
{
    let sign = current(tokens, pos);
    let strength = unary_precedence(sign.kind);
    let head = if strength != 0 && strength >= parent {
        let operand = parse_expr(tokens, pos + 1, strength);
        Parsed {
            tree: Tree::Unary { operand: Box::new(operand.tree), op: sign },
            used: 1 + operand.used,
            diags: operand.diags,
        }
    } else {
        parse_primary(tokens, pos)
    };
    let rest = parse_operators(tokens, head.tree, pos + head.used, parent);
    Parsed { tree: rest.tree, used: head.used + rest.used, diags: head.diags + rest.diags }
}

/// A primary expression: a parenthesised expression, which yields the tree
/// of what stands between the parentheses, or else a number.
pub open spec fn parse_primary(tokens: Seq<TokenModel>, pos: nat) -> Parsed
    decreases remaining(tokens, pos), 1nat,
    when ends_with_eof(tokens)
{
    if current(tokens, pos).kind == TokenKind::OpenParen {
        let inner = parse_expr(tokens, pos + 1, 0);
        let close = expect(tokens, pos + 1 + inner.used, TokenKind::CloseParen);
        Parsed {
            tree: inner.tree,
            used: 1 + inner.used + close.used,
            diags: inner.diags + close.diags,
        }
    } else {
        let number = expect(tokens, pos, TokenKind::Number);
        Parsed {
            tree: Tree::Literal { value: number.token },
            used: number.used,
            diags: number.diags,
        }
    }
}

/// The infix operators that follow `left` and bind tighter than `parent`,
/// folded to the left: each takes what was built so far as its left
/// operand, and an expression at its own strength as its right operand.
pub open spec fn parse_operators(
    tokens: Seq<TokenModel>,
    left: Tree,
    pos: nat,
    parent: int,
) -> Parsed
    decreases remaining(tokens, pos), 0nat,
    when ends_with_eof(tokens)
{
    let op = current(tokens, pos);
    let strength = binary_precedence(op.kind);
    if strength == 0 || strength <= parent {
        Parsed { tree: left, used: 0, diags: Seq::empty() }
    } else {
        let right = parse_expr(tokens, pos + 1, strength);
        let folded = Tree::Binary { left: Box::new(left), op, right: Box::new(right.tree) };
        let rest = parse_operators(tokens, folded, pos + 1 + right.used, parent);
        Parsed {
            tree: rest.tree,
            used: 1 + right.used + rest.used,
            diags: right.diags + rest.diags,
        }
    }
}

/// The parse of a whole token sequence: one expression, from the first
/// token, with nothing binding it from outside.
pub open spec fn parse_tokens(tokens: Seq<TokenModel>) -> Parsed {
    parse_expr(tokens, 0, 0)
}

} // verus!
