use vstd::prelude::*;

use crate::lexer::token::Token;
use crate::lexer::token::TokenModel;

verus! {

/// Which of the three shapes a node has.
#[derive(Debug, Clone, Copy, PartialEq, Eq, Structural)]
pub enum NodeKind {
    Literal,
    Unary,
    Binary,
}

/// The mathematical reading of an expression tree: each shape with exactly
/// the parts it is made of.
pub enum Tree {
    Literal { value: TokenModel },
    Unary { operand: Box<Tree>, op: TokenModel },
    Binary { left: Box<Tree>, op: TokenModel, right: Box<Tree> },
}

impl Tree {
    /// Byte offset at which the text of the tree begins. A literal begins
    /// with its token, a binary expression with its left operand, and a
    /// unary expression with whichever of operator and operand comes first.
    pub open spec fn start(self) -> nat
        decreases self,
    {
        match self {
            Tree::Literal { value } => value.pos,
            Tree::Unary { operand, op } => if operand.start() < op.pos {
                operand.start()
            } else {
                op.pos
            },
            Tree::Binary { left, op, right } => left.start(),
        }
    }

    /// Byte offset just past the text of the tree. A literal ends with its
    /// token, a binary expression with its right operand, and a unary
    /// expression with whichever of operator and operand ends last.
    pub open spec fn end(self) -> nat
        decreases self,
    {
        match self {
            Tree::Literal { value } => value.pos + value.len,
            Tree::Unary { operand, op } => if operand.end() > op.pos + op.len {
                operand.end()
            } else {
                op.pos + op.len
            },
            Tree::Binary { left, op, right } => right.end(),
        }
    }
}

impl Tree {
    /// Every span in the tree is a proper interval: across each binary
    /// expression, the left operand starts no later than the right one
    /// ends. (Literals and unary expressions cannot fail this.)
    pub open spec fn spans_ok(self) -> bool
        decreases self,
    {
        match self {
            Tree::Literal { value } => true,
            Tree::Unary { operand, op } => operand.spans_ok(),
            Tree::Binary { left, op, right } => {
                &&& left.spans_ok()
                &&& right.spans_ok()
                &&& left.start() <= right.end()
            },
        }
    }

    /// The tokens that the tree is made of, in the order in which an
    /// expression is written: a sign before its operand, an infix operator
    /// between its operands.
    pub open spec fn tokens(self) -> Seq<TokenModel>
        decreases self,
    {
        match self {
            Tree::Literal { value } => seq![value],
            Tree::Unary { operand, op } => seq![op] + operand.tokens(),
            Tree::Binary { left, op, right } => left.tokens() + seq![op] + right.tokens(),
        }
    }

    /// A tree whose spans are proper intervals starts no later than it ends.
    pub proof fn lemma_start_before_end(self)
        requires
            self.spans_ok(),
        ensures
            self.start() <= self.end(),
        decreases self,
    {
        match self {
            Tree::Literal { value } => {},
            Tree::Unary { operand, op } => {
                operand.lemma_start_before_end();
            },
            Tree::Binary { left, op, right } => {},
        }
    }
}

/// A node of the expression tree. The fields that a shape does not use are
/// `None`: a literal has only `val`; a unary expression has its operand in
/// `left` and its operator in `op`; a binary expression has `left`, `op`
/// and `right`. `pos` and `len` locate the node in the source.
#[derive(Debug)]
pub struct Node {
    pub kind: NodeKind,
    pub left: Option<Box<Node>>,
    pub op: Option<Token>,
    pub right: Option<Box<Node>>,
    pub val: Option<Token>,
    pub pos: usize,
    pub len: usize,
}

impl View for Node {
    type V = Tree;

    open spec fn view(&self) -> Tree {
        self.tree()
    }
}

impl Clone for Node {
    fn clone(&self) -> (copy: Self)
        ensures
            copy == *self,
        decreases self,
    {
        Node {
            kind: self.kind,
            left: (match &self.left {
                Some(node) => Some(Box::new((&**node).clone())),
                None => None,
            }),
            op: (match &self.op {
                Some(token) => Some(token.clone()),
                None => None,
            }),
            right: (match &self.right {
                Some(node) => Some(Box::new((&**node).clone())),
                None => None,
            }),
            val: (match &self.val {
                Some(token) => Some(token.clone()),
                None => None,
            }),
            pos: self.pos,
            len: self.len,
        }
    }
}

impl Node {
    /// The tree that the node stands for. Where a part that the shape needs
    /// is missing, nothing is said of the result.
    pub open spec fn tree(&self) -> Tree
        decreases self,
    {
        match self.kind {
            NodeKind::Literal => match self.val {
                Some(value) => Tree::Literal { value: value@ },
                None => arbitrary(),
            },
            NodeKind::Unary => match (self.left, self.op) {
                (Some(operand), Some(op)) => Tree::Unary {
                    operand: Box::new(operand.tree()),
                    op: op@,
                },
                _ => arbitrary(),
            },
            NodeKind::Binary => match (self.left, self.op, self.right) {
                (Some(left), Some(op), Some(right)) => Tree::Binary {
                    left: Box::new(left.tree()),
                    op: op@,
                    right: Box::new(right.tree()),
                },
                _ => arbitrary(),
            },
        }
    }

    /// The node has exactly the parts of its shape, each of them well
    /// formed, and `pos` and `len` are the span of the tree it stands for.
    pub open spec fn wf(&self) -> bool
        decreases self,
    {
        &&& self.pos == self@.start()
        &&& self.pos + self.len == self@.end()
        &&& self.pos + self.len <= usize::MAX
        &&& match self.kind {
            NodeKind::Literal => {
                &&& self.val matches Some(value)
                &&& value.wf()
                &&& self.left is None
                &&& self.op is None
                &&& self.right is None
            },
            NodeKind::Unary => {
                &&& self.left matches Some(operand)
                &&& self.op matches Some(op)
                &&& operand.wf()
                &&& op.wf()
                &&& self.right is None
                &&& self.val is None
            },
            NodeKind::Binary => {
                &&& self.left matches Some(left)
                &&& self.op matches Some(op)
                &&& self.right matches Some(right)
                &&& left.wf()
                &&& op.wf()
                &&& right.wf()
                &&& self.val is None
            },
        }
    }

    /// The literal node of `token`; it covers what the token covers.
    pub fn new_lit(token: Token) -> (node: Self)
        ensures
            node.kind == NodeKind::Literal,
            node.val == Some(token),
            node.left is None,
            node.op is None,
            node.right is None,
            node.pos == token.pos,
            node.len == token.len,
            node@ == (Tree::Literal { value: token@ }),
            token.wf() ==> node.wf(),
    {
        let pos = token.pos;
        let len = token.len;
        Self { kind: NodeKind::Literal, left: None, op: None, right: None, val: Some(token), pos, len }
    }

    /// The node of the prefix operator `op` applied to `operand`. It covers
    /// both, whichever comes first: from the smaller of the two starts to
    /// the larger of the two ends.
    pub fn new_unary(operand: Node, op: Token) -> (node: Self)
        requires
            operand.pos + operand.len <= usize::MAX,
            op.pos + op.len <= usize::MAX,
        ensures
            node.kind == NodeKind::Unary,
            node.left == Some(Box::new(operand)),
            node.op == Some(op),
            node.right is None,
            node.val is None,
            node.pos == (if operand.pos < op.pos {
                operand.pos
            } else {
                op.pos
            }),
            node.pos + node.len == (if operand.pos + operand.len > op.pos + op.len {
                operand.pos + operand.len
            } else {
                op.pos + op.len
            }),
            node@ == (Tree::Unary { operand: Box::new(operand@), op: op@ }),
            operand.wf() && op.wf() ==> node.wf(),
    {
        let operand_end = operand.pos + operand.len;
        let op_end = op.pos + op.len;
        let pos = if operand.pos < op.pos {
            operand.pos
        } else {
            op.pos
        };
        let end = if operand_end > op_end {
            operand_end
        } else {
            op_end
        };
        Self {
            kind: NodeKind::Unary,
            left: Some(Box::new(operand)),
            op: Some(op),
            right: None,
            val: None,
            pos,
            len: end - pos,
        }
    }

    /// The node of the infix operator `op` between `left` and `right`. It
    /// covers from the start of `left` to the end of `right`.
    pub fn new_binary(left: Node, op: Token, right: Node) -> (node: Self)
        requires
            right.pos + right.len <= usize::MAX,
            left.pos <= right.pos + right.len,
        ensures
            node.kind == NodeKind::Binary,
            node.left == Some(Box::new(left)),
            node.op == Some(op),
            node.right == Some(Box::new(right)),
            node.val is None,
            node.pos == left.pos,
            node.pos + node.len == right.pos + right.len,
            node@ == (Tree::Binary { left: Box::new(left@), op: op@, right: Box::new(right@) }),
            left.wf() && op.wf() && right.wf() ==> node.wf(),
    {
        let pos = left.pos;
        let len = (right.pos + right.len) - left.pos;
        Self {
            kind: NodeKind::Binary,
            left: Some(Box::new(left)),
            op: Some(op),
            right: Some(Box::new(right)),
            val: None,
            pos,
            len,
        }
    }
}

} // verus!
