//! What holds of the parse of every token sequence.

use vstd::prelude::*;

use crate::diags::diag::DiagModel;
use crate::diags::diagbag::unexpected_token_report;
use crate::lexer::token::binary_precedence;
use crate::lexer::token::unary_precedence;
use crate::lexer::token::TokenKind;
use crate::lexer::token::TokenModel;
use crate::parser::grammar::all_covering;
use crate::parser::grammar::consumed;
use crate::parser::grammar::covering;
use crate::parser::grammar::current;
use crate::parser::grammar::ends_with_eof;
use crate::parser::grammar::expect;
use crate::parser::grammar::parse_expr;
use crate::parser::grammar::parse_operators;
use crate::parser::grammar::parse_primary;
use crate::parser::grammar::parse_tokens;
use crate::parser::grammar::parseable;
use crate::parser::grammar::span_of;
use crate::parser::grammar::without_parens;
use crate::parser::node::Tree;

verus! {

/// The tree of a number.
pub open spec fn literal(value: TokenModel) -> Tree {
    Tree::Literal { value }
}

/// The tree of a sign applied to an operand.
pub open spec fn unary(op: TokenModel, operand: Tree) -> Tree {
    Tree::Unary { operand: Box::new(operand), op }
}

/// The tree of an infix operator between two operands.
pub open spec fn binary(left: Tree, op: TokenModel, right: Tree) -> Tree {
    Tree::Binary { left: Box::new(left), op, right: Box::new(right) }
}

/// A number under the cursor is a primary expression by itself.
proof fn lemma_number_is_primary(tokens: Seq<TokenModel>, pos: nat)
    requires
        ends_with_eof(tokens),
        pos < tokens.len(),
        tokens[pos as int].kind == TokenKind::Number,
    ensures
        parse_primary(tokens, pos).tree == literal(tokens[pos as int]),
        parse_primary(tokens, pos).used == 1,
        parse_primary(tokens, pos).diags == Seq::<DiagModel>::empty(),
{
}

/// Where no operator that binds tighter than `parent` stands under the
/// cursor, what was built so far is the result.
proof fn lemma_operators_stop(tokens: Seq<TokenModel>, left: Tree, pos: nat, parent: int)
    requires
        ends_with_eof(tokens),
        binary_precedence(current(tokens, pos).kind) <= parent || binary_precedence(
            current(tokens, pos).kind,
        ) == 0,
    ensures
        parse_operators(tokens, left, pos, parent).tree == left,
        parse_operators(tokens, left, pos, parent).used == 0,
        parse_operators(tokens, left, pos, parent).diags == Seq::<DiagModel>::empty(),
{
}

/// Where an operator that binds tighter than `parent` stands under the
/// cursor, it takes what was built so far as its left operand, and the
/// fold goes on after its right operand.
proof fn lemma_operators_step(tokens: Seq<TokenModel>, left: Tree, pos: nat, parent: int)
    requires
        ends_with_eof(tokens),
        binary_precedence(current(tokens, pos).kind) > parent,
        binary_precedence(current(tokens, pos).kind) != 0,
    ensures
        ({
            let op = current(tokens, pos);
            let right = parse_expr(tokens, pos + 1, binary_precedence(op.kind));
            let rest = parse_operators(
                tokens,
                binary(left, op, right.tree),
                pos + 1 + right.used,
                parent,
            );
            &&& parse_operators(tokens, left, pos, parent).tree == rest.tree
            &&& parse_operators(tokens, left, pos, parent).used == 1 + right.used + rest.used
            &&& parse_operators(tokens, left, pos, parent).diags == right.diags + rest.diags
        }),
{
}

/// An expression that starts with no sign is a primary expression followed
/// by operators.
proof fn lemma_expr_from_primary(tokens: Seq<TokenModel>, pos: nat, parent: int)
    requires
        ends_with_eof(tokens),
        unary_precedence(current(tokens, pos).kind) == 0 || unary_precedence(
            current(tokens, pos).kind,
        ) < parent,
    ensures
        ({
            let head = parse_primary(tokens, pos);
            let rest = parse_operators(tokens, head.tree, pos + head.used, parent);
            &&& parse_expr(tokens, pos, parent).tree == rest.tree
            &&& parse_expr(tokens, pos, parent).used == head.used + rest.used
            &&& parse_expr(tokens, pos, parent).diags == head.diags + rest.diags
        }),
{
}

/// An expression that starts with a sign is the sign applied to an
/// expression at the sign's own strength, followed by operators.
proof fn lemma_expr_from_sign(tokens: Seq<TokenModel>, pos: nat, parent: int)
    requires
        ends_with_eof(tokens),
        unary_precedence(current(tokens, pos).kind) != 0,
        unary_precedence(current(tokens, pos).kind) >= parent,
    ensures
        ({
            let sign = current(tokens, pos);
            let operand = parse_expr(tokens, pos + 1, unary_precedence(sign.kind));
            let rest = parse_operators(
                tokens,
                unary(sign, operand.tree),
                pos + 1 + operand.used,
                parent,
            );
            &&& parse_expr(tokens, pos, parent).tree == rest.tree
            &&& parse_expr(tokens, pos, parent).used == 1 + operand.used + rest.used
            &&& parse_expr(tokens, pos, parent).diags == operand.diags + rest.diags
        }),
{
}

/// A number that no tighter operator follows is an expression by itself.
proof fn lemma_lone_number(tokens: Seq<TokenModel>, pos: nat, parent: int)
    requires
        ends_with_eof(tokens),
        pos + 1 < tokens.len(),
        tokens[pos as int].kind == TokenKind::Number,
        binary_precedence(tokens[pos as int + 1].kind) <= parent || binary_precedence(
            tokens[pos as int + 1].kind,
        ) == 0,
    ensures
        parse_expr(tokens, pos, parent).tree == literal(tokens[pos as int]),
        parse_expr(tokens, pos, parent).used == 1,
        parse_expr(tokens, pos, parent).diags == Seq::<DiagModel>::empty(),
{
    lemma_number_is_primary(tokens, pos);
    lemma_expr_from_primary(tokens, pos, parent);
    lemma_operators_stop(tokens, literal(tokens[pos as int]), pos + 1, parent);
    assert(Seq::<DiagModel>::empty() + Seq::<DiagModel>::empty() =~= Seq::<DiagModel>::empty());
}

/// An expression parsed from a token leaves the cursor on a token.
proof fn lemma_expr_in_range(tokens: Seq<TokenModel>, pos: nat, parent: int)
    requires
        ends_with_eof(tokens),
        pos < tokens.len(),
    ensures
        pos + parse_expr(tokens, pos, parent).used < tokens.len(),
    decreases tokens.len() - pos, 2nat,
{
    let sign = current(tokens, pos);
    let strength = unary_precedence(sign.kind);
    if strength != 0 && strength >= parent {
        lemma_expr_in_range(tokens, pos + 1, strength);
        let operand = parse_expr(tokens, pos + 1, strength);
        lemma_operators_in_range(
            tokens,
            unary(sign, operand.tree),
            pos + 1 + operand.used,
            parent,
        );
    } else {
        lemma_primary_in_range(tokens, pos);
        let head = parse_primary(tokens, pos);
        lemma_operators_in_range(tokens, head.tree, pos + head.used, parent);
    }
}

/// A primary expression parsed from a token leaves the cursor on a token.
proof fn lemma_primary_in_range(tokens: Seq<TokenModel>, pos: nat)
    requires
        ends_with_eof(tokens),
        pos < tokens.len(),
    ensures
        pos + parse_primary(tokens, pos).used < tokens.len(),
    decreases tokens.len() - pos, 1nat,
{
    if current(tokens, pos).kind == TokenKind::OpenParen {
        lemma_expr_in_range(tokens, pos + 1, 0);
    }
}

/// Operators folded from a token leave the cursor on a token.
proof fn lemma_operators_in_range(tokens: Seq<TokenModel>, left: Tree, pos: nat, parent: int)
    requires
        ends_with_eof(tokens),
        pos < tokens.len(),
    ensures
        pos + parse_operators(tokens, left, pos, parent).used < tokens.len(),
    decreases tokens.len() - pos, 0nat,
{
    let op = current(tokens, pos);
    let strength = binary_precedence(op.kind);
    if !(strength == 0 || strength <= parent) {
        lemma_expr_in_range(tokens, pos + 1, strength);
        let right = parse_expr(tokens, pos + 1, strength);
        lemma_operators_in_range(
            tokens,
            binary(left, op, right.tree),
            pos + 1 + right.used,
            parent,
        );
    }
}

/// An expression parsed from tokens in source order starts between the
/// token it was parsed from and the token left under the cursor, and its
/// spans are proper intervals.
proof fn lemma_expr_placed(tokens: Seq<TokenModel>, pos: nat, parent: int)
    requires
        parseable(tokens),
        pos < tokens.len(),
    ensures
        pos + parse_expr(tokens, pos, parent).used < tokens.len(),
        parse_expr(tokens, pos, parent).tree.spans_ok(),
        tokens[pos as int].pos <= parse_expr(tokens, pos, parent).tree.start(),
        parse_expr(tokens, pos, parent).tree.start() <= current(
            tokens,
            pos + parse_expr(tokens, pos, parent).used,
        ).pos,
    decreases tokens.len() - pos, 2nat,
{
    let sign = current(tokens, pos);
    let strength = unary_precedence(sign.kind);
    lemma_expr_in_range(tokens, pos, parent);
    if strength != 0 && strength >= parent {
        lemma_expr_placed(tokens, pos + 1, strength);
        let operand = parse_expr(tokens, pos + 1, strength);
        assert(tokens[pos as int].pos <= tokens[pos as int + 1].pos);
        assert(tokens[pos as int].pos <= tokens[pos as int + 1 + operand.used].pos);
        lemma_operators_placed(
            tokens,
            unary(sign, operand.tree),
            pos,
            pos + 1 + operand.used,
            parent,
        );
    } else {
        lemma_primary_placed(tokens, pos);
        let head = parse_primary(tokens, pos);
        lemma_operators_placed(tokens, head.tree, pos, pos + head.used, parent);
    }
}

/// A primary expression parsed from tokens in source order starts between
/// the token it was parsed from and the token left under the cursor, and
/// its spans are proper intervals.
proof fn lemma_primary_placed(tokens: Seq<TokenModel>, pos: nat)
    requires
        parseable(tokens),
        pos < tokens.len(),
    ensures
        pos + parse_primary(tokens, pos).used < tokens.len(),
        parse_primary(tokens, pos).tree.spans_ok(),
        tokens[pos as int].pos <= parse_primary(tokens, pos).tree.start(),
        parse_primary(tokens, pos).tree.start() <= current(
            tokens,
            pos + parse_primary(tokens, pos).used,
        ).pos,
    decreases tokens.len() - pos, 1nat,
{
    lemma_primary_in_range(tokens, pos);
    if current(tokens, pos).kind == TokenKind::OpenParen {
        lemma_expr_placed(tokens, pos + 1, 0);
        let inner = parse_expr(tokens, pos + 1, 0);
        let after = pos + 1 + inner.used;
        assert(tokens[pos as int].pos <= tokens[pos as int + 1].pos);
        assert(tokens[after as int].pos <= tokens[pos as int + parse_primary(tokens, pos).used].pos);
    } else {
        assert(tokens[pos as int].pos <= tokens[pos as int + parse_primary(tokens, pos).used].pos);
    }
}

/// Operators folded onto a well placed tree give a well placed tree: it
/// starts where the tree they were folded onto starts.
proof fn lemma_operators_placed(
    tokens: Seq<TokenModel>,
    left: Tree,
    from: nat,
    pos: nat,
    parent: int,
)
    requires
        parseable(tokens),
        from <= pos < tokens.len(),
        left.spans_ok(),
        tokens[from as int].pos <= left.start() <= tokens[pos as int].pos,
    ensures
        pos + parse_operators(tokens, left, pos, parent).used < tokens.len(),
        parse_operators(tokens, left, pos, parent).tree.spans_ok(),
        parse_operators(tokens, left, pos, parent).tree.start() == left.start(),
        left.start() <= current(
            tokens,
            pos + parse_operators(tokens, left, pos, parent).used,
        ).pos,
    decreases tokens.len() - pos, 0nat,
{
    let op = current(tokens, pos);
    let strength = binary_precedence(op.kind);
    lemma_operators_in_range(tokens, left, pos, parent);
    if !(strength == 0 || strength <= parent) {
        lemma_expr_placed(tokens, pos + 1, strength);
        let right = parse_expr(tokens, pos + 1, strength);
        right.tree.lemma_start_before_end();
        let after = pos + 1 + right.used;
        assert(tokens[pos as int].pos <= tokens[pos as int + 1].pos);
        assert(tokens[pos as int].pos <= tokens[after as int].pos);
        lemma_operators_placed(tokens, binary(left, op, right.tree), from, after, parent);
    }
}

/// Leaving out parentheses goes through concatenation.
proof fn lemma_without_parens_concat(a: Seq<TokenModel>, b: Seq<TokenModel>)
    ensures
        without_parens(a + b) == without_parens(a) + without_parens(b),
{
    Seq::filter_distributes_over_add(
        a,
        b,
        |t: TokenModel| t.kind != TokenKind::OpenParen && t.kind != TokenKind::CloseParen,
    );
}

/// Of a single token, leaving out parentheses leaves the token, unless it
/// is a parenthesis.
proof fn lemma_without_parens_single(t: TokenModel)
    ensures
        without_parens(seq![t]) == (if t.kind == TokenKind::OpenParen || t.kind
            == TokenKind::CloseParen {
            Seq::<TokenModel>::empty()
        } else {
            seq![t]
        }),
{
    reveal(Seq::filter);
    let s = seq![t];
    assert(s.drop_last() =~= Seq::<TokenModel>::empty());
    assert(without_parens(s.drop_last()) =~= Seq::<TokenModel>::empty());
    assert(s.last() == t);
    assert(Seq::<TokenModel>::empty().push(t) =~= seq![t]);
}

/// The tokens from `from` up to `to`, and the token at `to`, are the tokens
/// from `from` up to `to + 1`.
proof fn lemma_consume_one(tokens: Seq<TokenModel>, from: nat, to: nat)
    requires
        from <= to < tokens.len(),
    ensures
        without_parens(consumed(tokens, from, to + 1)) == without_parens(
            consumed(tokens, from, to),
        ) + without_parens(seq![tokens[to as int]]),
{
    assert(consumed(tokens, from, to + 1) =~= consumed(tokens, from, to) + seq![
        tokens[to as int],
    ]);
    lemma_without_parens_concat(consumed(tokens, from, to), seq![tokens[to as int]]);
}

/// The tokens from `from` up to `mid` and those from `mid` up to `to` are
/// the tokens from `from` up to `to`.
proof fn lemma_consume_more(tokens: Seq<TokenModel>, from: nat, mid: nat, to: nat)
    requires
        from <= mid <= to <= tokens.len(),
    ensures
        without_parens(consumed(tokens, from, to)) == without_parens(consumed(tokens, from, mid))
            + without_parens(consumed(tokens, mid, to)),
{
    assert(consumed(tokens, from, to) =~= consumed(tokens, from, mid) + consumed(
        tokens,
        mid,
        to,
    ));
    lemma_without_parens_concat(consumed(tokens, from, mid), consumed(tokens, mid, to));
}

/// An expression parsed without a diagnostic is made of the tokens it
/// consumed, parentheses aside.
proof fn lemma_expr_keeps_tokens(tokens: Seq<TokenModel>, pos: nat, parent: int)
    requires
        ends_with_eof(tokens),
        pos < tokens.len(),
        parse_expr(tokens, pos, parent).diags.len() == 0,
    ensures
        parse_expr(tokens, pos, parent).tree.tokens() == without_parens(
            consumed(tokens, pos, pos + parse_expr(tokens, pos, parent).used),
        ),
    decreases tokens.len() - pos, 2nat,
{
    let sign = current(tokens, pos);
    let strength = unary_precedence(sign.kind);
    lemma_expr_in_range(tokens, pos, parent);
    if strength != 0 && strength >= parent {
        let operand = parse_expr(tokens, pos + 1, strength);
        let head = unary(sign, operand.tree);
        let after = pos + 1 + operand.used;
        lemma_expr_in_range(tokens, pos + 1, strength);
        lemma_expr_keeps_tokens(tokens, pos + 1, strength);
        lemma_without_parens_single(sign);
        assert(consumed(tokens, pos, pos + 1) =~= seq![sign]);
        lemma_consume_more(tokens, pos, pos + 1, after);
        lemma_operators_keep_tokens(tokens, head, pos, after, parent);
    } else {
        let head = parse_primary(tokens, pos);
        lemma_primary_in_range(tokens, pos);
        lemma_primary_keeps_tokens(tokens, pos);
        lemma_operators_keep_tokens(tokens, head.tree, pos, pos + head.used, parent);
    }
}

/// A primary expression parsed without a diagnostic is made of the tokens
/// it consumed, parentheses aside.
proof fn lemma_primary_keeps_tokens(tokens: Seq<TokenModel>, pos: nat)
    requires
        ends_with_eof(tokens),
        pos < tokens.len(),
        parse_primary(tokens, pos).diags.len() == 0,
    ensures
        parse_primary(tokens, pos).tree.tokens() == without_parens(
            consumed(tokens, pos, pos + parse_primary(tokens, pos).used),
        ),
    decreases tokens.len() - pos, 1nat,
{
    let first = tokens[pos as int];
    lemma_without_parens_single(first);
    assert(consumed(tokens, pos, pos + 1) =~= seq![first]);
    if first.kind == TokenKind::OpenParen {
        let inner = parse_expr(tokens, pos + 1, 0);
        let after = pos + 1 + inner.used;
        lemma_expr_in_range(tokens, pos + 1, 0);
        lemma_expr_keeps_tokens(tokens, pos + 1, 0);
        let close = tokens[after as int];
        lemma_without_parens_single(close);
        lemma_consume_more(tokens, pos, pos + 1, after);
        lemma_consume_one(tokens, pos, after);
        assert(without_parens(consumed(tokens, pos, after)) =~= inner.tree.tokens());
        assert(without_parens(consumed(tokens, pos, after + 1)) =~= inner.tree.tokens());
    }
}

/// Operators folded without a diagnostic onto a tree that is made of the
/// tokens from `from` up to the cursor give a tree that is made of the
/// tokens from `from` up to where the fold ends, parentheses aside.
proof fn lemma_operators_keep_tokens(
    tokens: Seq<TokenModel>,
    left: Tree,
    from: nat,
    pos: nat,
    parent: int,
)
    requires
        ends_with_eof(tokens),
        from <= pos < tokens.len(),
        left.tokens() == without_parens(consumed(tokens, from, pos)),
        parse_operators(tokens, left, pos, parent).diags.len() == 0,
    ensures
        parse_operators(tokens, left, pos, parent).tree.tokens() == without_parens(
            consumed(tokens, from, pos + parse_operators(tokens, left, pos, parent).used),
        ),
    decreases tokens.len() - pos, 0nat,
{
    let op = current(tokens, pos);
    let strength = binary_precedence(op.kind);
    if !(strength == 0 || strength <= parent) {
        let right = parse_expr(tokens, pos + 1, strength);
        let after = pos + 1 + right.used;
        lemma_expr_in_range(tokens, pos + 1, strength);
        lemma_expr_keeps_tokens(tokens, pos + 1, strength);
        lemma_without_parens_single(op);
        lemma_consume_one(tokens, from, pos);
        lemma_consume_more(tokens, from, pos + 1, after);
        lemma_operators_keep_tokens(tokens, binary(left, op, right.tree), from, after, parent);
    }
}

/// Leaving out empty tokens goes through concatenation.
proof fn lemma_covering_concat(a: Seq<TokenModel>, b: Seq<TokenModel>)
    ensures
        covering(a + b) == covering(a) + covering(b),
{
    Seq::filter_distributes_over_add(a, b, |t: TokenModel| t.len > 0);
}

/// Of a single token, leaving out empty tokens leaves the token, unless it
/// is empty.
proof fn lemma_covering_single(t: TokenModel)
    ensures
        covering(seq![t]) == (if t.len > 0 {
            seq![t]
        } else {
            Seq::<TokenModel>::empty()
        }),
{
    reveal(Seq::filter);
    let s = seq![t];
    assert(s.drop_last() =~= Seq::<TokenModel>::empty());
    assert(covering(s.drop_last()) =~= Seq::<TokenModel>::empty());
    assert(s.last() == t);
    assert(Seq::<TokenModel>::empty().push(t) =~= seq![t]);
}

/// No tokens stay no tokens, whatever is left out.
proof fn lemma_nothing_consumed(tokens: Seq<TokenModel>, pos: nat)
    requires
        pos <= tokens.len(),
    ensures
        without_parens(consumed(tokens, pos, pos)) == Seq::<TokenModel>::empty(),
{
    reveal(Seq::filter);
    assert(consumed(tokens, pos, pos) =~= Seq::<TokenModel>::empty());
}

/// The tokens of an expression that cover text are the tokens it consumed,
/// parentheses aside.
proof fn lemma_expr_keeps_covering(tokens: Seq<TokenModel>, pos: nat, parent: int)
    requires
        ends_with_eof(tokens),
        all_covering(tokens),
        pos < tokens.len(),
    ensures
        covering(parse_expr(tokens, pos, parent).tree.tokens()) == without_parens(
            consumed(tokens, pos, pos + parse_expr(tokens, pos, parent).used),
        ),
    decreases tokens.len() - pos, 2nat,
{
    let sign = current(tokens, pos);
    let strength = unary_precedence(sign.kind);
    lemma_expr_in_range(tokens, pos, parent);
    if strength != 0 && strength >= parent {
        let operand = parse_expr(tokens, pos + 1, strength);
        let head = unary(sign, operand.tree);
        let after = pos + 1 + operand.used;
        lemma_expr_in_range(tokens, pos + 1, strength);
        lemma_expr_keeps_covering(tokens, pos + 1, strength);
        lemma_without_parens_single(sign);
        lemma_covering_single(sign);
        lemma_covering_concat(seq![sign], operand.tree.tokens());
        assert(consumed(tokens, pos, pos + 1) =~= seq![sign]);
        lemma_consume_more(tokens, pos, pos + 1, after);
        lemma_operators_keep_covering(tokens, head, pos, after, parent);
    } else {
        let head = parse_primary(tokens, pos);
        lemma_primary_in_range(tokens, pos);
        lemma_primary_keeps_covering(tokens, pos);
        lemma_operators_keep_covering(tokens, head.tree, pos, pos + head.used, parent);
    }
}

/// The tokens of a primary expression that cover text are the tokens it
/// consumed, parentheses aside.
proof fn lemma_primary_keeps_covering(tokens: Seq<TokenModel>, pos: nat)
    requires
        ends_with_eof(tokens),
        all_covering(tokens),
        pos < tokens.len(),
    ensures
        covering(parse_primary(tokens, pos).tree.tokens()) == without_parens(
            consumed(tokens, pos, pos + parse_primary(tokens, pos).used),
        ),
    decreases tokens.len() - pos, 1nat,
{
    let first = tokens[pos as int];
    lemma_without_parens_single(first);
    lemma_covering_single(first);
    assert(consumed(tokens, pos, pos + 1) =~= seq![first]);
    if first.kind == TokenKind::OpenParen {
        let inner = parse_expr(tokens, pos + 1, 0);
        let after = pos + 1 + inner.used;
        lemma_expr_in_range(tokens, pos + 1, 0);
        lemma_expr_keeps_covering(tokens, pos + 1, 0);
        let close = tokens[after as int];
        lemma_without_parens_single(close);
        lemma_consume_more(tokens, pos, pos + 1, after);
        lemma_consume_one(tokens, pos, after);
        assert(without_parens(consumed(tokens, pos, after)) =~= covering(inner.tree.tokens()));
        if close.kind == TokenKind::CloseParen {
            assert(without_parens(consumed(tokens, pos, after + 1)) =~= covering(
                inner.tree.tokens(),
            ));
        }
    } else if first.kind != TokenKind::Number {
        lemma_covering_single(parse_primary(tokens, pos).tree->value);
        lemma_nothing_consumed(tokens, pos);
    }
}

/// Operators folded onto a tree whose tokens that cover text are the
/// tokens from `from` up to the cursor give a tree whose tokens that cover
/// text are the tokens from `from` up to where the fold ends, parentheses
/// aside.
proof fn lemma_operators_keep_covering(
    tokens: Seq<TokenModel>,
    left: Tree,
    from: nat,
    pos: nat,
    parent: int,
)
    requires
        ends_with_eof(tokens),
        all_covering(tokens),
        from <= pos < tokens.len(),
        covering(left.tokens()) == without_parens(consumed(tokens, from, pos)),
    ensures
        covering(parse_operators(tokens, left, pos, parent).tree.tokens()) == without_parens(
            consumed(tokens, from, pos + parse_operators(tokens, left, pos, parent).used),
        ),
    decreases tokens.len() - pos, 0nat,
{
    let op = current(tokens, pos);
    let strength = binary_precedence(op.kind);
    if !(strength == 0 || strength <= parent) {
        let right = parse_expr(tokens, pos + 1, strength);
        let after = pos + 1 + right.used;
        lemma_expr_in_range(tokens, pos + 1, strength);
        lemma_expr_keeps_covering(tokens, pos + 1, strength);
        lemma_without_parens_single(op);
        lemma_covering_single(op);
        lemma_covering_concat(left.tokens() + seq![op], right.tree.tokens());
        lemma_covering_concat(left.tokens(), seq![op]);
        lemma_consume_one(tokens, from, pos);
        lemma_consume_more(tokens, from, pos + 1, after);
        lemma_operators_keep_covering(tokens, binary(left, op, right.tree), from, after, parent);
    }
}

/// A parse never runs off its tokens: started on a token, it leaves the
/// cursor on a token. In particular it never consumes the end marker that
/// closes the sequence.
pub proof fn law_cursor_stays_on_a_token(tokens: Seq<TokenModel>, pos: nat, parent: int)
    requires
        ends_with_eof(tokens),
        pos < tokens.len(),
    ensures
        pos + parse_expr(tokens, pos, parent).used < tokens.len(),
{
    lemma_expr_in_range(tokens, pos, parent);
}

/// Over tokens in source order, every span of the tree is a proper
/// interval, ending no earlier than it starts; and the tree starts no
/// earlier than the token it was parsed from, and no later than the token
/// left under the cursor.
pub proof fn law_spans_are_intervals(tokens: Seq<TokenModel>, pos: nat, parent: int)
    requires
        parseable(tokens),
        pos < tokens.len(),
    ensures
        parse_expr(tokens, pos, parent).tree.spans_ok(),
        parse_expr(tokens, pos, parent).tree.start() <= parse_expr(tokens, pos, parent).tree.end(),
        tokens[pos as int].pos <= parse_expr(tokens, pos, parent).tree.start(),
        parse_expr(tokens, pos, parent).tree.start() <= current(
            tokens,
            pos + parse_expr(tokens, pos, parent).used,
        ).pos,
{
    lemma_expr_placed(tokens, pos, parent);
    parse_expr(tokens, pos, parent).tree.lemma_start_before_end();
}

/// A parse that files no diagnostic neither loses, adds nor moves a token:
/// read in the order in which an expression is written, the tree is made
/// of exactly the tokens that were consumed, parentheses aside.
pub proof fn law_clean_parse_keeps_every_token(tokens: Seq<TokenModel>, pos: nat, parent: int)
    requires
        ends_with_eof(tokens),
        pos < tokens.len(),
        parse_expr(tokens, pos, parent).diags.len() == 0,
    ensures
        parse_expr(tokens, pos, parent).tree.tokens() == without_parens(
            consumed(tokens, pos, pos + parse_expr(tokens, pos, parent).used),
        ),
{
    lemma_expr_keeps_tokens(tokens, pos, parent);
}

/// Whatever was wrong with its input, a parse neither loses nor moves a
/// token, and adds none but the empty ones it makes up: where every token
/// of the input covers text, as every token of a lexer does, the tokens of
/// the tree that cover text are exactly the tokens that were consumed,
/// parentheses aside, in the order in which they were written.
pub proof fn law_parse_keeps_every_token(tokens: Seq<TokenModel>, pos: nat, parent: int)
    requires
        ends_with_eof(tokens),
        all_covering(tokens),
        pos < tokens.len(),
    ensures
        covering(parse_expr(tokens, pos, parent).tree.tokens()) == without_parens(
            consumed(tokens, pos, pos + parse_expr(tokens, pos, parent).used),
        ),
{
    lemma_expr_keeps_covering(tokens, pos, parent);
}

/// Infix operators group by strength, and to the left among equals. Of
/// three numbers `a`, `b`, `c` joined by two operators, the second operator
/// takes `b` for itself only where it binds tighter than the first: then
/// the tree is `a op1 (b op2 c)`, else it is `(a op1 b) op2 c`.
pub proof fn law_operators_group_by_strength(tokens: Seq<TokenModel>)
    requires
        ends_with_eof(tokens),
        tokens.len() >= 6,
        tokens[0].kind == TokenKind::Number,
        binary_precedence(tokens[1].kind) > 0,
        tokens[2].kind == TokenKind::Number,
        binary_precedence(tokens[3].kind) > 0,
        tokens[4].kind == TokenKind::Number,
        binary_precedence(tokens[5].kind) == 0,
    ensures
        parse_tokens(tokens).tree == (if binary_precedence(tokens[3].kind) > binary_precedence(
            tokens[1].kind,
        ) {
            binary(
                literal(tokens[0]),
                tokens[1],
                binary(literal(tokens[2]), tokens[3], literal(tokens[4])),
            )
        } else {
            binary(
                binary(literal(tokens[0]), tokens[1], literal(tokens[2])),
                tokens[3],
                literal(tokens[4]),
            )
        }),
        parse_tokens(tokens).used == 5,
        parse_tokens(tokens).diags == Seq::<DiagModel>::empty(),
{
    let none = Seq::<DiagModel>::empty();
    assert(none + none =~= none);
    let a = literal(tokens[0]);
    let b = literal(tokens[2]);
    let c = literal(tokens[4]);
    let first = binary_precedence(tokens[1].kind);
    let second = binary_precedence(tokens[3].kind);
    lemma_number_is_primary(tokens, 0);
    lemma_expr_from_primary(tokens, 0, 0);
    lemma_operators_step(tokens, a, 1, 0);
    lemma_lone_number(tokens, 4, second);
    if second > first {
        lemma_number_is_primary(tokens, 2);
        lemma_expr_from_primary(tokens, 2, first);
        lemma_operators_step(tokens, b, 3, first);
        lemma_operators_stop(tokens, binary(b, tokens[3], c), 5, first);
        lemma_operators_stop(tokens, binary(a, tokens[1], binary(b, tokens[3], c)), 5, 0);
    } else {
        lemma_lone_number(tokens, 2, first);
        lemma_operators_step(tokens, binary(a, tokens[1], b), 3, 0);
        lemma_operators_stop(tokens, binary(binary(a, tokens[1], b), tokens[3], c), 5, 0);
    }
}

/// Parentheses override strength. Of `( a op1 b ) op2 c`, the tree is
/// `(a op1 b) op2 c` whatever the two operators are, and the parentheses
/// themselves leave no trace in it.
pub proof fn law_parentheses_override_strength(tokens: Seq<TokenModel>)
    requires
        ends_with_eof(tokens),
        tokens.len() >= 8,
        tokens[0].kind == TokenKind::OpenParen,
        tokens[1].kind == TokenKind::Number,
        binary_precedence(tokens[2].kind) > 0,
        tokens[3].kind == TokenKind::Number,
        tokens[4].kind == TokenKind::CloseParen,
        binary_precedence(tokens[5].kind) > 0,
        tokens[6].kind == TokenKind::Number,
        binary_precedence(tokens[7].kind) == 0,
    ensures
        parse_tokens(tokens).tree == binary(
            binary(literal(tokens[1]), tokens[2], literal(tokens[3])),
            tokens[5],
            literal(tokens[6]),
        ),
        parse_tokens(tokens).used == 7,
        parse_tokens(tokens).diags == Seq::<DiagModel>::empty(),
{
    let none = Seq::<DiagModel>::empty();
    assert(none + none =~= none);
    let a = literal(tokens[1]);
    let b = literal(tokens[3]);
    let c = literal(tokens[6]);
    let inner = binary(a, tokens[2], b);
    // inside the parentheses
    lemma_number_is_primary(tokens, 1);
    lemma_expr_from_primary(tokens, 1, 0);
    lemma_operators_step(tokens, a, 2, 0);
    lemma_lone_number(tokens, 3, binary_precedence(tokens[2].kind));
    lemma_operators_stop(tokens, inner, 4, 0);
    assert(parse_expr(tokens, 1, 0).tree == inner);
    assert(parse_expr(tokens, 1, 0).used == 3);
    assert(parse_expr(tokens, 1, 0).diags =~= none);
    // the parenthesised expression as a primary
    assert(parse_primary(tokens, 0).tree == inner);
    assert(parse_primary(tokens, 0).used == 5);
    assert(parse_primary(tokens, 0).diags =~= none);
    // what follows it
    lemma_expr_from_primary(tokens, 0, 0);
    lemma_operators_step(tokens, inner, 5, 0);
    lemma_lone_number(tokens, 6, binary_precedence(tokens[5].kind));
    lemma_operators_stop(tokens, binary(inner, tokens[5], c), 7, 0);
}

/// A sign binds tighter than any infix operator. Of `sign a op b`, the
/// tree is `(sign a) op b`, never `sign (a op b)`.
pub proof fn law_sign_binds_tighter(tokens: Seq<TokenModel>)
    requires
        ends_with_eof(tokens),
        tokens.len() >= 5,
        unary_precedence(tokens[0].kind) > 0,
        tokens[1].kind == TokenKind::Number,
        binary_precedence(tokens[2].kind) > 0,
        tokens[3].kind == TokenKind::Number,
        binary_precedence(tokens[4].kind) == 0,
    ensures
        parse_tokens(tokens).tree == binary(
            unary(tokens[0], literal(tokens[1])),
            tokens[2],
            literal(tokens[3]),
        ),
        parse_tokens(tokens).used == 4,
        parse_tokens(tokens).diags == Seq::<DiagModel>::empty(),
{
    let none = Seq::<DiagModel>::empty();
    assert(none + none =~= none);
    let a = literal(tokens[1]);
    let b = literal(tokens[3]);
    let signed = unary(tokens[0], a);
    lemma_expr_from_sign(tokens, 0, 0);
    lemma_lone_number(tokens, 1, unary_precedence(tokens[0].kind));
    lemma_operators_step(tokens, signed, 2, 0);
    lemma_lone_number(tokens, 3, binary_precedence(tokens[2].kind));
    lemma_operators_stop(tokens, binary(signed, tokens[2], b), 4, 0);
}

/// A missing closing parenthesis costs exactly one diagnostic and no part
/// of the tree. Of `( a op b` followed by a token that is neither an
/// operator nor the parenthesis, the tree is `a op b`, and the one
/// diagnostic says, at the span of that token, that a closing parenthesis
/// was expected; the token itself is left under the cursor.
pub proof fn law_missing_close_paren(tokens: Seq<TokenModel>)
    requires
        ends_with_eof(tokens),
        tokens.len() >= 5,
        tokens[0].kind == TokenKind::OpenParen,
        tokens[1].kind == TokenKind::Number,
        binary_precedence(tokens[2].kind) > 0,
        tokens[3].kind == TokenKind::Number,
        binary_precedence(tokens[4].kind) == 0,
        tokens[4].kind != TokenKind::CloseParen,
    ensures
        parse_tokens(tokens).tree == binary(literal(tokens[1]), tokens[2], literal(tokens[3])),
        parse_tokens(tokens).used == 4,
        parse_tokens(tokens).diags == seq![
            unexpected_token_report(span_of(tokens[4]), tokens[4].kind, TokenKind::CloseParen),
        ],
{
    let none = Seq::<DiagModel>::empty();
    let report = seq![
        unexpected_token_report(span_of(tokens[4]), tokens[4].kind, TokenKind::CloseParen),
    ];
    assert(none + none =~= none);
    assert(none + report =~= report);
    assert(report + none =~= report);
    let a = literal(tokens[1]);
    let b = literal(tokens[3]);
    let inner = binary(a, tokens[2], b);
    lemma_number_is_primary(tokens, 1);
    lemma_expr_from_primary(tokens, 1, 0);
    lemma_operators_step(tokens, a, 2, 0);
    lemma_lone_number(tokens, 3, binary_precedence(tokens[2].kind));
    lemma_operators_stop(tokens, inner, 4, 0);
    assert(parse_expr(tokens, 1, 0).tree == inner);
    assert(parse_expr(tokens, 1, 0).used == 3);
    assert(parse_expr(tokens, 1, 0).diags =~= none);
    assert(expect(tokens, 4, TokenKind::CloseParen).used == 0);
    assert(expect(tokens, 4, TokenKind::CloseParen).diags =~= report);
    assert(parse_primary(tokens, 0).tree == inner);
    assert(parse_primary(tokens, 0).used == 4);
    assert(parse_primary(tokens, 0).diags =~= report);
    lemma_expr_from_primary(tokens, 0, 0);
    lemma_operators_stop(tokens, inner, 4, 0);
}

} // verus!
