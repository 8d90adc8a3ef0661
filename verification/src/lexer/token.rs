use vstd::prelude::*;

use crate::diags::textspan::TextSpan;

verus! {

/// The closed set of lexeme classes.
#[derive(Debug, Clone, Copy, PartialEq, Eq, Structural)]
pub enum TokenKind {
    Illegal,
    EOF,
    Number,
    Plus,
    Minus,
    Star,
    Slash,
    OpenParen,
    CloseParen,
}

/// The mathematical reading of a token: its class, the characters it was
/// made of, the byte offset where it starts and the bytes it covers.
pub struct TokenModel {
    pub kind: TokenKind,
    pub literal: Seq<char>,
    pub pos: nat,
    pub len: nat,
}

impl TokenModel {
    /// Byte offset at which the token starts.
    pub open spec fn start(self) -> int {
        self.pos as int
    }

    /// Byte offset just past the token.
    pub open spec fn end(self) -> int {
        (self.pos + self.len) as int
    }
}

/// A classified lexeme with its text and its place in the source.
#[derive(Debug)]
pub struct Token {
    pub kind: TokenKind,
    pub literal: String,
    pub pos: usize,
    pub len: usize,
    pub span: TextSpan,
}

/// The mathematical reading of a list of tokens.
pub open spec fn token_models(list: Seq<Token>) -> Seq<TokenModel> {
    list.map_values(|t: Token| t@)
}

/// Every token of the list is well formed.
pub open spec fn tokens_wf(list: Seq<Token>) -> bool {
    forall|i: int| 0 <= i < list.len() ==> (#[trigger] list[i]).wf()
}

/// Binding strength of `kind` as a prefix operator; 0 means it is none.
pub open spec fn unary_precedence(kind: TokenKind) -> int {
    match kind {
        TokenKind::Plus | TokenKind::Minus => 3,
        _ => 0,
    }
}

/// Binding strength of `kind` as an infix operator; 0 means it is none.
pub open spec fn binary_precedence(kind: TokenKind) -> int {
    match kind {
        TokenKind::Star | TokenKind::Slash => 2,
        TokenKind::Plus | TokenKind::Minus => 1,
        _ => 0,
    }
}

impl TokenKind {
    /// The name of the variant, as diagnostics print it.
    pub open spec fn name_spec(self) -> Seq<char> {
        match self {
            TokenKind::Illegal => "Illegal"@,
            TokenKind::EOF => "EOF"@,
            TokenKind::Number => "Number"@,
            TokenKind::Plus => "Plus"@,
            TokenKind::Minus => "Minus"@,
            TokenKind::Star => "Star"@,
            TokenKind::Slash => "Slash"@,
            TokenKind::OpenParen => "OpenParen"@,
            TokenKind::CloseParen => "CloseParen"@,
        }
    }

    /// The name of the variant, as diagnostics print it.
    pub fn name(self) -> (name: &'static str)
        ensures
            name@ == self.name_spec(),
    {
        match self {
            TokenKind::Illegal => "Illegal",
            TokenKind::EOF => "EOF",
            TokenKind::Number => "Number",
            TokenKind::Plus => "Plus",
            TokenKind::Minus => "Minus",
            TokenKind::Star => "Star",
            TokenKind::Slash => "Slash",
            TokenKind::OpenParen => "OpenParen",
            TokenKind::CloseParen => "CloseParen",
        }
    }
}

impl View for Token {
    type V = TokenModel;

    open spec fn view(&self) -> TokenModel {
        TokenModel {
            kind: self.kind,
            literal: self.literal@,
            pos: self.pos as nat,
            len: self.len as nat,
        }
    }
}

impl Clone for Token {
    fn clone(&self) -> (copy: Self)
        ensures
            copy == *self,
    {
        Token {
            kind: self.kind,
            literal: self.literal.clone(),
            pos: self.pos,
            len: self.len,
            span: self.span,
        }
    }
}

impl Token {
    /// The span repeats `pos` and `len`, and ends where they say.
    pub open spec fn wf(&self) -> bool {
        &&& self.span.start == self.pos
        &&& self.span.len == self.len
        &&& self.span.end == self.pos + self.len
    }

    /// The token of class `kind` and text `literal` that covers `len` bytes
    /// from offset `pos`.
    pub fn new(kind: TokenKind, literal: String, pos: usize, len: usize) -> (token: Self)
        requires
            pos + len <= usize::MAX,
        ensures
            token.kind == kind,
            token.literal == literal,
            token.pos == pos,
            token.len == len,
            token.wf(),
            token@ == (TokenModel {
                kind,
                literal: literal@,
                pos: pos as nat,
                len: len as nat,
            }),
    {
        Self { kind, literal, pos, len, span: TextSpan::new(pos, len) }
    }

    /// Binding strength of `kind` as a prefix operator: 3 for the two signs,
    /// 0 for everything else.
    pub fn get_unary_op_precedence(kind: TokenKind) -> (prece: i32)
        ensures
            prece == unary_precedence(kind),
    {
        match kind {
            TokenKind::Plus | TokenKind::Minus => 3,
            _ => 0,
        }
    }

    /// Binding strength of `kind` as an infix operator: 2 for `*` and `/`,
    /// 1 for `+` and `-`, 0 for everything else.
    pub fn get_binary_op_precedence(kind: TokenKind) -> (prece: i32)
        ensures
            prece == binary_precedence(kind),
    {
        match kind {
            TokenKind::Star | TokenKind::Slash => 2,
            TokenKind::Plus | TokenKind::Minus => 1,
            _ => 0,
        }
    }
}

} // verus!
