use vstd::prelude::*;

use crate::diags::diag::Diag;
use crate::diags::diag::DiagModel;
use crate::diags::diagbag::diag_models;
use crate::diags::diagbag::diags_wf;
use crate::diags::diagbag::DiagBag;
use crate::lexer::token::token_models;
use crate::lexer::token::tokens_wf;
use crate::lexer::token::Token;
use crate::lexer::token::TokenKind;
use crate::lexer::token::TokenModel;
use crate::parser::grammar::current;
use crate::parser::grammar::expect;
use crate::parser::grammar::parse_expr;
use crate::parser::grammar::parse_operators;
use crate::parser::grammar::parse_primary;
use crate::parser::grammar::parseable;
use crate::parser::node::Node;

verus! {

/// A recursive-descent parser over a materialised token sequence. It never
/// gives up: where a token is missing it files a diagnostic, makes one up
/// and goes on.
pub struct Parser {
    tokens: Vec<Token>,
    pos: usize,
    diags: DiagBag,
}

impl Parser {
    /// The tokens being parsed.
    pub closed spec fn tokens(&self) -> Seq<TokenModel> {
        token_models(self.tokens@)
    }

    /// Index of the token under the cursor.
    pub closed spec fn position(&self) -> nat {
        self.pos as nat
    }

    /// The diagnostics collected so far.
    pub closed spec fn reports(&self) -> Seq<DiagModel> {
        self.diags@
    }

    /// The tokens and the diagnostics are well formed, and the cursor
    /// stands on a token.
    pub closed spec fn inv(&self) -> bool {
        &&& tokens_wf(self.tokens@)
        &&& self.pos < self.tokens@.len()
        &&& self.diags.wf()
    }

    /// The parser is in working order, over tokens that are in source order
    /// and closed by an end marker, with its cursor on one of them.
    pub open spec fn wf(&self) -> bool {
        &&& self.inv()
        &&& parseable(self.tokens())
        &&& self.position() < self.tokens().len()
    }

    /// Of two tokens, the later one starts no earlier.
    proof fn lemma_in_order(&self, i: int, j: int)
        requires
            self.wf(),
        ensures
            0 <= i <= j < self.tokens@.len() ==> self.tokens@[i].pos <= self.tokens@[j].pos,
    {
        if 0 <= i <= j < self.tokens@.len() {
            let toks = self.tokens();
            assert(toks[i].pos <= toks[j].pos);
        }
    }

    /// Whether `tokens` can be handed to [`Parser::new`]: each token is well
    /// formed, none starts before one that precedes it, and the last one is
    /// an end marker.
    pub fn accepts(tokens: &Vec<Token>) -> (ok: bool)
        ensures
            ok == (tokens_wf(tokens@) && parseable(token_models(tokens@))),
    {
        let ghost models = token_models(tokens@);
        let n = tokens.len();
        if n == 0 {
            return false;
        }
        if tokens[n - 1].kind != TokenKind::EOF {
            assert(models.last().kind == tokens@[n - 1].kind);
            return false;
        }
        let mut i: usize = 0;
        while i < n
            invariant
                n == tokens@.len(),
                models == token_models(tokens@),
                0 <= i <= n,
                forall|k: int| 0 <= k < i ==> (#[trigger] tokens@[k]).wf(),
                forall|k: int, m: int|
                    0 <= k <= m < i ==> (#[trigger] models[k]).pos <= (#[trigger] models[m]).pos,
            decreases n - i,
        {
            let token = &tokens[i];
            if token.span.start != token.pos || token.span.len != token.len {
                return false;
            }
            if token.len > usize::MAX - token.pos {
                return false;
            }
            if token.span.end != token.pos + token.len {
                return false;
            }
            if i > 0 && tokens[i - 1].pos > token.pos {
                assert(models[i - 1].pos > models[i as int].pos);
                return false;
            }
            assert forall|k: int, m: int| 0 <= k <= m < i + 1 implies (#[trigger] models[k]).pos
                <= (#[trigger] models[m]).pos by {
                if m == i && k < i {
                    assert(models[k].pos <= models[i - 1].pos);
                }
            }
            i += 1;
        }
        assert(models.last().kind == tokens@[n - 1].kind);
        true
    }

    /// A parser at the first of `tokens`.
    pub fn new(tokens: Vec<Token>) -> (parser: Self)
        requires
            tokens_wf(tokens@),
            parseable(token_models(tokens@)),
        ensures
            parser.wf(),
            parser.tokens() == token_models(tokens@),
            parser.position() == 0,
            parser.reports() == Seq::<DiagModel>::empty(),
    {
        Self { tokens, pos: 0, diags: DiagBag::new() }
    }

    /// A copy of the diagnostics collected so far. Reading them changes
    /// nothing.
    pub fn diags(&self) -> (list: Vec<Diag>)
        ensures
            diag_models(list@) == self.reports(),
            self.wf() ==> diags_wf(list@),
    {
        self.diags.list()
    }

    /// A copy of the token `offset` places after the cursor; past the last
    /// token, of the last token.
    fn peek(&self, offset: usize) -> (token: Token)
        requires
            self.tokens@.len() > 0,
            self.pos + offset <= usize::MAX,
        ensures
            token == (if self.pos + offset < self.tokens@.len() {
                self.tokens@[self.pos + offset]
            } else {
                self.tokens@.last()
            }),
            token@ == current(self.tokens(), (self.pos + offset) as nat),
    {
        let i = self.pos + offset;
        if i >= self.tokens.len() {
            return self.tokens[self.tokens.len() - 1].clone();
        }
        self.tokens[i].clone()
    }

    /// A copy of the token under the cursor.
    fn current(&self) -> (token: Token)
        requires
            self.inv(),
        ensures
            token == self.tokens@[self.pos as int],
            token@ == current(self.tokens(), self.pos as nat),
            token.wf(),
    {
        self.peek(0)
    }

    /// Consumes the token under the cursor.
    fn read(&mut self) -> (token: Token)
        requires
            old(self).inv(),
            old(self).pos + 1 < old(self).tokens@.len(),
        ensures
            final(self).inv(),
            final(self).tokens == old(self).tokens,
            final(self).diags == old(self).diags,
            final(self).pos == old(self).pos + 1,
            token == old(self).tokens@[old(self).pos as int],
            token@ == current(old(self).tokens(), old(self).pos as nat),
            token.wf(),
    {
        let current = self.current();
        assert(self.tokens@.len() == self.tokens.len());
        self.pos += 1;
        current
    }

    /// Requires a token of class `kind` under the cursor and consumes it;
    /// where another one stands, reports it, leaves it, and makes up an
    /// empty token of the class required at its place.
    fn match_(&mut self, kind: TokenKind) -> (token: Token)
        requires
            old(self).wf(),
            kind != TokenKind::EOF,
        ensures
            final(self).wf(),
            final(self).tokens == old(self).tokens,
            token.wf(),
            token@ == expect(old(self).tokens(), old(self).pos as nat, kind).token,
            final(self).pos == old(self).pos + expect(
                old(self).tokens(),
                old(self).pos as nat,
                kind,
            ).used,
            final(self).diags@ == old(self).diags@ + expect(
                old(self).tokens(),
                old(self).pos as nat,
                kind,
            ).diags,
            token.pos == old(self).tokens@[old(self).pos as int].pos,
    {
        if self.current().kind == kind {
            return self.read();
        }
        self.diags.report_unexpected_token(self.current().span, self.current().kind, kind);
        Token::new(kind, String::new(), self.current().pos, 0)
    }

    /// Parses one expression from the cursor on and returns its tree. Every
    /// input yields a tree; what was wrong with it is in the diagnostics.
    pub fn parse(&mut self) -> (node: Node)
        requires
            old(self).wf(),
        ensures
            final(self).wf(),
            final(self).tokens() == old(self).tokens(),
            node.wf(),
            node@ == parse_expr(old(self).tokens(), old(self).position(), 0).tree,
            final(self).position() == old(self).position() + parse_expr(
                old(self).tokens(),
                old(self).position(),
                0,
            ).used,
            final(self).reports() == old(self).reports() + parse_expr(
                old(self).tokens(),
                old(self).position(),
                0,
            ).diags,
    {
        self.binary_expr(0)
    }

    /// Parses an expression whose operators all bind tighter than
    /// `parent_prece`: a sign with its operand, or else a primary
    /// expression; then the infix operators that follow, folded to the left.
    fn binary_expr(&mut self, parent_prece: i32) -> (node: Node)
        requires
            old(self).wf(),
        ensures
            final(self).wf(),
            final(self).tokens == old(self).tokens,
            node.wf(),
            node@ == parse_expr(old(self).tokens(), old(self).pos as nat, parent_prece as int).tree,
            final(self).pos == old(self).pos + parse_expr(
                old(self).tokens(),
                old(self).pos as nat,
                parent_prece as int,
            ).used,
            final(self).diags@ == old(self).diags@ + parse_expr(
                old(self).tokens(),
                old(self).pos as nat,
                parent_prece as int,
            ).diags,
            old(self).tokens@[old(self).pos as int].pos <= node.pos,
            node.pos <= final(self).tokens@[final(self).pos as int].pos,
        decreases old(self).tokens@.len() - old(self).pos, 2nat,
    {
        let ghost toks = self.tokens();
        let ghost start = self.pos as nat;
        let ghost total = parse_expr(toks, start, parent_prece as int);
        let ghost before = self.diags@;
        let unary_op_prece = Token::get_unary_op_precedence(self.current().kind);

        let mut left = if unary_op_prece != 0 && unary_op_prece >= parent_prece {
            let op = self.read();
            let operand = self.binary_expr(unary_op_prece);
            Node::new_unary(operand, op)
        } else {
            self.prim_expr()
        };
        let ghost mut done = self.diags@.skip(before.len() as int);
        proof {
            let rest = parse_operators(toks, left@, self.pos as nat, parent_prece as int);
            assert(self.diags@ =~= before + done);
            assert(total.diags =~= done + rest.diags);
        }

        loop
            invariant
                self.wf(),
                self.tokens == old(self).tokens,
                self.tokens() == toks,
                left.wf(),
                start <= self.pos,
                old(self).pos == start,
                self.diags@ == before + done,
                total.tree == parse_operators(
                    toks,
                    left@,
                    self.pos as nat,
                    parent_prece as int,
                ).tree,
                total.used == (self.pos - start) + parse_operators(
                    toks,
                    left@,
                    self.pos as nat,
                    parent_prece as int,
                ).used,
                total.diags == done + parse_operators(
                    toks,
                    left@,
                    self.pos as nat,
                    parent_prece as int,
                ).diags,
                self.tokens@[start as int].pos <= left.pos,
                left.pos <= self.tokens@[self.pos as int].pos,
            ensures
                self.wf(),
                self.tokens == old(self).tokens,
                left.wf(),
                self.diags@ == before + total.diags,
                total.tree == left@,
                total.used == self.pos - start,
                self.tokens@[start as int].pos <= left.pos,
                left.pos <= self.tokens@[self.pos as int].pos,
            decreases self.tokens@.len() - self.pos,
        {
            let prece = Token::get_binary_op_precedence(self.current().kind);
            if prece == 0 || prece <= parent_prece {
                proof {
                    assert(done + Seq::<DiagModel>::empty() =~= done);
                }
                break ;
            }
            let ghost at = self.pos as nat;
            let op = self.read();
            let right = self.binary_expr(prece);
            proof {
                let step = parse_expr(toks, at + 1, prece as int);
                done = done + step.diags;
                assert(self.diags@ =~= before + done);
                assert(toks[at as int].pos <= toks[at as int + 1].pos);
            }
            left = Node::new_binary(left, op, right);
        }
        left
    }

    /// Parses a primary expression: a parenthesised expression, or else a
    /// number.
    fn prim_expr(&mut self) -> (node: Node)
        requires
            old(self).wf(),
        ensures
            final(self).wf(),
            final(self).tokens == old(self).tokens,
            node.wf(),
            node@ == parse_primary(old(self).tokens(), old(self).pos as nat).tree,
            final(self).pos == old(self).pos + parse_primary(
                old(self).tokens(),
                old(self).pos as nat,
            ).used,
            final(self).diags@ == old(self).diags@ + parse_primary(
                old(self).tokens(),
                old(self).pos as nat,
            ).diags,
            old(self).tokens@[old(self).pos as int].pos <= node.pos,
            node.pos <= final(self).tokens@[final(self).pos as int].pos,
        decreases old(self).tokens@.len() - old(self).pos, 1nat,
    {
        proof {
            self.lemma_in_order(self.pos as int, self.pos as int + 1);
        }
        match self.current().kind {
            TokenKind::OpenParen => {
                self.read();
                let expr = self.binary_expr(0);
                proof {
                    self.lemma_in_order(self.pos as int, self.pos as int + 1);
                }
                self.match_(TokenKind::CloseParen);
                expr
            },
            _ => Node::new_lit(self.match_(TokenKind::Number)),
        }
    }
}

} // verus!
