use vstd::prelude::*;

use crate::diags::diag::Diag;
use crate::diags::diag::DiagModel;
use crate::diags::diagbag::diag_models;
use crate::diags::diagbag::diags_wf;
use crate::diags::diagbag::DiagBag;
use crate::lexer::laws::law_token_sequence_is_parseable;
use crate::lexer::scan::end_token;
use crate::lexer::scan::illegal_reports;
use crate::lexer::scan::kind_of;
use crate::lexer::scan::lemma_tokens_from_step;
use crate::lexer::scan::numeric_run;
use crate::lexer::scan::offset_of;
use crate::lexer::scan::report_for;
use crate::lexer::scan::token_at;
use crate::lexer::scan::tokens_from;
use crate::lexer::scan::tokens_of;
use crate::lexer::scan::whitespace_run;
use crate::lexer::token::token_models;
use crate::lexer::token::tokens_wf;
use crate::lexer::token::Token;
use crate::lexer::token::TokenKind;
use crate::lexer::token::TokenModel;
use crate::parser::grammar::parseable;
use crate::text::byte_len;
use crate::text::char_width;
use crate::text::lemma_utf8_len_at_least_chars;
use crate::text::lemma_utf8_len_empty;
use crate::text::lemma_utf8_len_prefix;
use crate::text::lemma_utf8_len_push;
use crate::text::lemma_utf8_len_single;
use crate::text::lemma_utf8_width_bounds;
use crate::text::utf8_len;

verus! {

/// The class of the token that the character `ch` starts. `numeric` says
/// whether `ch` is a numeric character; it only matters when `ch` is none
/// of the fixed symbols.
pub fn classify(ch: char, numeric: bool) -> (kind: TokenKind)
    ensures
        kind == kind_of(ch, numeric),
{
    if ch == '\0' {
        TokenKind::EOF
    } else if ch == '+' {
        TokenKind::Plus
    } else if ch == '-' {
        TokenKind::Minus
    } else if ch == '*' {
        TokenKind::Star
    } else if ch == '/' {
        TokenKind::Slash
    } else if ch == '(' {
        TokenKind::OpenParen
    } else if ch == ')' {
        TokenKind::CloseParen
    } else if numeric {
        TokenKind::Number
    } else {
        TokenKind::Illegal
    }
}

/// A one-pass scanner over a text. It hands out the tokens of
/// [`tokens_of`] one at a time and cannot be rewound.
pub struct Lexer {
    /// The characters of the text.
    source: Vec<char>,
    /// The character read last.
    current: char,
    /// The read cursor: index of the character read last.
    pos: usize,
    /// The lookahead cursor: index of the character to read next. It moves
    /// one past the length of the text when the end marker is read.
    next: usize,
    /// Byte offset of the lookahead cursor.
    offset: usize,
    /// What the scan complained of so far.
    diags: DiagBag,
    /// The tokens handed out so far.
    emitted: Ghost<Seq<TokenModel>>,
}

impl Lexer {
    /// The text being scanned.
    pub closed spec fn source(&self) -> Seq<char> {
        self.source@
    }

    /// The tokens handed out so far.
    pub closed spec fn emitted(&self) -> Seq<TokenModel> {
        self.emitted@
    }

    /// The tokens still to come: none once the lookahead cursor has passed
    /// the end of the text, which it does when the end marker is handed
    /// out.
    pub closed spec fn pending(&self) -> Seq<TokenModel> {
        if self.next > self.source@.len() {
            Seq::empty()
        } else {
            tokens_from(self.source@, self.next as int)
        }
    }

    /// The diagnostics collected so far.
    pub closed spec fn reports(&self) -> Seq<DiagModel> {
        self.diags@
    }

    /// The cursors agree with each other and with the text: the read cursor
    /// trails the lookahead by one once anything was read, and `offset` is
    /// the byte offset of the lookahead.
    pub closed spec fn inv(&self) -> bool {
        &&& utf8_len(self.source@) < usize::MAX
        &&& self.source@.len() < usize::MAX
        &&& (self.pos == 0 && self.next == 0) || (self.next == self.pos + 1 && self.pos
            <= self.source@.len())
        &&& self.offset == offset_of(
            self.source@,
            if self.next <= self.source@.len() {
                self.next as int
            } else {
                self.source@.len() as int
            },
        )
        &&& self.diags.wf()
    }

    /// The scanner stands between two tokens of its text: what it handed out
    /// and what is still to come make up the token sequence of the text, and
    /// it has filed exactly the diagnostics of what it handed out.
    pub open spec fn wf(&self) -> bool {
        &&& self.inv()
        &&& self.emitted() + self.pending() == tokens_of(self.source())
        &&& self.reports() == illegal_reports(self.emitted())
    }

    /// Whether `contents` can be handed to [`Lexer::new`]: its end marker,
    /// which stands one past its last byte, must have an offset to stand at.
    pub fn accepts(contents: &str) -> (ok: bool)
        ensures
            ok == (utf8_len(contents@) < usize::MAX),
    {
        byte_len(contents) < usize::MAX
    }

    /// A scanner at the start of `contents`.
    pub fn new(contents: String) -> (lexer: Self)
        requires
            utf8_len(contents@) < usize::MAX,
        ensures
            lexer.wf(),
            lexer.source() == contents@,
            lexer.emitted() == Seq::<TokenModel>::empty(),
            lexer.pending() == tokens_of(contents@),
            lexer.reports() == Seq::<DiagModel>::empty(),
    {
        let mut source: Vec<char> = Vec::new();
        for c in it: contents.as_str().chars()
            invariant
                source@ == it.seq().take(it.index() as int),
        {
            source.push(c);
        }
        let lexer = Self {
            source,
            current: ' ',
            pos: 0,
            next: 0,
            offset: 0,
            diags: DiagBag::new(),
            emitted: Ghost(Seq::empty()),
        };
        proof {
            assert(lexer.source@ =~= contents@);
            lemma_utf8_len_at_least_chars(contents@);
            lemma_utf8_len_empty();
            assert(lexer.source@.take(0) =~= Seq::<char>::empty());
            assert(lexer.emitted() + lexer.pending() =~= tokens_of(contents@));
        }
        lexer
    }

    /// A copy of the diagnostics collected so far. Reading them changes
    /// nothing.
    pub fn diags(&self) -> (list: Vec<Diag>)
        ensures
            diag_models(list@) == self.reports(),
            self.wf() ==> diags_wf(list@),
    {
        self.diags.list()
    }

    /// The character under the lookahead cursor, or the null character
    /// where the text is used up.
    fn peek(&self) -> (ch: char)
        ensures
            ch == (if self.next < self.source@.len() {
                self.source@[self.next as int]
            } else {
                '\0'
            }),
    {
        if self.next >= self.source.len() {
            return '\0';
        }
        self.source[self.next]
    }

    /// Moves both cursors one character on and returns the character now
    /// under the read cursor: the null character where the text is used up.
    fn read(&mut self) -> (ch: char)
        requires
            old(self).inv(),
            old(self).next <= old(self).source@.len(),
        ensures
            final(self).inv(),
            final(self).source == old(self).source,
            final(self).diags == old(self).diags,
            final(self).emitted == old(self).emitted,
            final(self).pos == old(self).next,
            final(self).next == old(self).next + 1,
            final(self).current == ch,
            ch == (if old(self).next < old(self).source@.len() {
                old(self).source@[old(self).next as int]
            } else {
                '\0'
            }),
    {
        if self.next >= self.source.len() {
            self.current = '\0';
        } else {
            self.current = self.source[self.next];
            proof {
                let s = self.source@;
                let i = self.next as int;
                assert(s.take(i + 1) =~= s.take(i).push(s[i]));
                lemma_utf8_len_push(s.take(i), s[i]);
                lemma_utf8_len_prefix(s, i, i + 1);
            }
            self.offset += char_width(self.current);
        }
        self.pos = self.next;
        self.next += 1;
        self.current
    }

    /// Moves the cursors over the whitespace that lies ahead.
    fn skip_whitespace(&mut self)
        requires
            old(self).inv(),
            old(self).next <= old(self).source@.len(),
        ensures
            final(self).inv(),
            final(self).source == old(self).source,
            final(self).diags == old(self).diags,
            final(self).emitted == old(self).emitted,
            final(self).next == old(self).next + whitespace_run(
                old(self).source@,
                old(self).next as int,
            ),
            final(self).next <= final(self).source@.len(),
    {
        while self.next < self.source.len() && self.peek().is_whitespace()
            invariant
                self.inv(),
                self.source == old(self).source,
                self.diags == old(self).diags,
                self.emitted == old(self).emitted,
                old(self).next <= self.next <= self.source@.len(),
                self.next + whitespace_run(self.source@, self.next as int) == old(self).next
                    + whitespace_run(old(self).source@, old(self).next as int),
            decreases self.source@.len() - self.next,
        {
            self.read();
        }
    }

    /// Scans one token: skips whitespace, reads one character, and goes by
    /// its class. A number takes in the numeric characters that follow; an
    /// illegal character is reported; past the end of the text stands the
    /// end marker.
    fn lex(&mut self) -> (token: Token)
        requires
            old(self).inv(),
            old(self).next <= old(self).source@.len(),
        ensures
            final(self).inv(),
            final(self).source == old(self).source,
            final(self).emitted == old(self).emitted,
            final(self).next == final(self).pos + 1,
            token.wf(),
            token@ == tokens_from(old(self).source@, old(self).next as int)[0],
            final(self).next <= final(self).source@.len() ==> tokens_from(
                final(self).source@,
                final(self).next as int,
            ) == tokens_from(old(self).source@, old(self).next as int).drop_first(),
            final(self).next > final(self).source@.len() ==> tokens_from(
                old(self).source@,
                old(self).next as int,
            ).len() == 1,
            final(self).diags@ == old(self).diags@ + report_for(token@),
    {
        let ghost s = self.source@;
        let ghost i = self.next as int;
        self.skip_whitespace();
        let ghost j = self.next as int;
        let start = self.offset;
        self.read();
        let mut buf = String::new();
        buf.push(self.current);
        let numeric = self.current.is_numeric();
        let kind = classify(self.current, numeric);
        proof {
            lemma_tokens_from_step(s, i);
            lemma_utf8_len_prefix(s, j, s.len() as int);
            assert(buf@ =~= seq![self.current]);
            if j < s.len() {
                assert(buf@ =~= s.subrange(j, j + 1));
            }
        }
        if kind == TokenKind::Number {
            while self.next < self.source.len() && self.peek().is_numeric()
                invariant
                    self.inv(),
                    self.source == old(self).source,
                    self.source@ == s,
                    self.diags == old(self).diags,
                    self.emitted == old(self).emitted,
                    0 <= j < s.len(),
                    j + 1 <= self.next <= s.len(),
                    self.next == self.pos + 1,
                    self.next + numeric_run(s, self.next as int) == j + 1 + numeric_run(s, j + 1),
                    buf@ == s.subrange(j, self.next as int),
                decreases s.len() - self.next,
            {
                let ghost n = self.next as int;
                let ch = self.read();
                buf.push(ch);
                assert(buf@ =~= s.subrange(j, n + 1)) by {
                    assert(ch == s[n]);
                    assert(s.subrange(j, n).push(s[n]) =~= s.subrange(j, n + 1));
                }
            }
        } else if kind == TokenKind::Illegal {
            self.diags.report_illegal_ch(start, self.current);
        }
        proof {
            lemma_utf8_len_single('\0');
            lemma_utf8_width_bounds('\0');
            if j < s.len() {
                lemma_utf8_len_prefix(s, j, self.next as int);
                lemma_utf8_len_prefix(s, self.next as int, s.len() as int);
            } else {
                assert(s.take(j) =~= s);
            }
        }
        let len = byte_len(buf.as_str());
        let token = Token::new(kind, buf, start, len);
        proof {
            assert(self.diags@ =~= old(self).diags@ + report_for(token@));
            if j < s.len() {
                assert(token@ == token_at(s, j));
            } else {
                assert(token@ == end_token(s));
                assert(tokens_from(s, i).len() == 1);
            }
        }
        token
    }

    /// Hands out the next token, or `None` once the end marker has been
    /// handed out. An illegal character comes out as an `Illegal` token and
    /// leaves one diagnostic behind; the scan goes on after it.
    pub fn next(&mut self) -> (token: Option<Token>)
        requires
            old(self).wf(),
        ensures
            final(self).wf(),
            final(self).source() == old(self).source(),
            match token {
                Some(t) => {
                    &&& t.wf()
                    &&& old(self).pending().len() > 0
                    &&& t@ == old(self).pending()[0]
                    &&& final(self).pending() == old(self).pending().drop_first()
                    &&& final(self).emitted() == old(self).emitted().push(t@)
                    &&& final(self).reports() == old(self).reports() + report_for(t@)
                },
                None => {
                    &&& old(self).pending().len() == 0
                    &&& final(self).pending() == old(self).pending()
                    &&& final(self).emitted() == old(self).emitted()
                    &&& final(self).reports() == old(self).reports()
                },
            },
    {
        if self.next > self.source.len() {
            return None;
        }
        let token = self.lex();
        proof {
            let before = old(self).emitted@;
            let after = before.push(token@);
            assert(after.drop_last() =~= before);
            assert(before + old(self).pending() =~= after + old(self).pending().drop_first());
        }
        self.emitted = Ghost(self.emitted@.push(token@));
        Some(token)
    }
}

/// Scans `text` from start to end: all of its tokens, in order, and the
/// diagnostics that the scan left behind.
pub fn tokenize(text: String) -> (out: (Vec<Token>, Vec<Diag>))
    requires
        utf8_len(text@) < usize::MAX,
    ensures
        token_models(out.0@) == tokens_of(text@),
        tokens_wf(out.0@),
        diag_models(out.1@) == illegal_reports(tokens_of(text@)),
        diags_wf(out.1@),
        parseable(token_models(out.0@)),
{
    proof {
        law_token_sequence_is_parseable(text@);
    }
    let mut lexer = Lexer::new(text);
    let mut tokens: Vec<Token> = Vec::new();
    assert(token_models(tokens@) =~= lexer.emitted());
    loop
        invariant
            lexer.wf(),
            lexer.source() == text@,
            token_models(tokens@) == lexer.emitted(),
            tokens_wf(tokens@),
        ensures
            lexer.wf(),
            lexer.source() == text@,
            token_models(tokens@) == lexer.emitted(),
            tokens_wf(tokens@),
            lexer.pending().len() == 0,
        decreases lexer.pending().len(),
    {
        match lexer.next() {
            Some(token) => {
                tokens.push(token);
                assert(token_models(tokens@) =~= lexer.emitted());
            },
            None => {
                break ;
            },
        }
    }
    assert(lexer.emitted() + lexer.pending() =~= lexer.emitted());
    (tokens, lexer.diags())
}

} // verus!
