use vstd::prelude::*;

use crate::diags::diag::Diag;
use crate::diags::diag::DiagModel;
use crate::diags::textspan::Span;
use crate::diags::textspan::TextSpan;
use crate::lexer::token::TokenKind;

verus! {

/// What is said about a character that starts no token.
pub open spec fn illegal_char_message(ch: char) -> Seq<char> {
    "Illegal character input: '"@ + seq![ch] + "'"@
}

/// What is said when a token of class `found` stands where one of class
/// `expected` was required.
pub open spec fn unexpected_token_message(found: TokenKind, expected: TokenKind) -> Seq<char> {
    "Unexpected token <"@ + found.name_spec() + ">, expected <"@ + expected.name_spec() + ">"@
}

/// The record filed for an illegal character at byte offset `pos`: it
/// covers exactly one position.
pub open spec fn illegal_char_report(pos: nat, ch: char) -> DiagModel {
    DiagModel { span: Span { start: pos, end: pos + 1 }, msg: illegal_char_message(ch) }
}

/// The record filed for an unexpected token found at `span`.
pub open spec fn unexpected_token_report(
    span: Span,
    found: TokenKind,
    expected: TokenKind,
) -> DiagModel {
    DiagModel { span, msg: unexpected_token_message(found, expected) }
}

/// The mathematical reading of a list of diagnostics.
pub open spec fn diag_models(list: Seq<Diag>) -> Seq<DiagModel> {
    list.map_values(|d: Diag| d@)
}

/// Every record of the list is well formed.
pub open spec fn diags_wf(list: Seq<Diag>) -> bool {
    forall|i: int| 0 <= i < list.len() ==> (#[trigger] list[i]).wf()
}

/// An append-only collector of diagnostics, in arrival order.
pub struct DiagBag {
    pub diags: Vec<Diag>,
}

impl View for DiagBag {
    type V = Seq<DiagModel>;

    open spec fn view(&self) -> Seq<DiagModel> {
        diag_models(self.diags@)
    }
}

impl DiagBag {
    /// Every record collected so far is well formed.
    pub open spec fn wf(&self) -> bool {
        diags_wf(self.diags@)
    }

    /// An empty collector.
    pub fn new() -> (bag: Self)
        ensures
            bag.diags@ == Seq::<Diag>::empty(),
            bag@ == Seq::<DiagModel>::empty(),
            bag.wf(),
    {
        let bag = Self { diags: Vec::<Diag>::new() };
        assert(bag@ =~= Seq::<DiagModel>::empty());
        bag
    }

    /// A copy of everything collected so far, in arrival order.
    pub fn list(&self) -> (list: Vec<Diag>)
        ensures
            list@ == self.diags@,
            diag_models(list@) == self@,
    {
        let list = self.diags.clone();
        assert(list@ =~= self.diags@);
        list
    }

    fn report(&mut self, span: TextSpan, msg: String)
        ensures
            final(self).diags@ == old(self).diags@.push(Diag { span, msg }),
            final(self)@ == old(self)@.push(DiagModel { span: span@, msg: msg@ }),
            old(self).wf() && span.wf() ==> final(self).wf(),
    {
        self.diags.push(Diag::new(span, msg));
        assert(self@ =~= old(self)@.push(DiagModel { span: span@, msg: msg@ }));
    }

    /// Files the complaint about the character `ch` found at offset `pos`.
    /// Nothing already collected is touched.
    pub fn report_illegal_ch(&mut self, pos: usize, ch: char)
        requires
            pos < usize::MAX,
        ensures
            final(self)@ == old(self)@.push(illegal_char_report(pos as nat, ch)),
            final(self).diags@.len() == old(self).diags@.len() + 1,
            final(self).diags@.drop_last() == old(self).diags@,
            final(self).diags@.last().span == (TextSpan { start: pos, len: 1, end: (pos + 1) as usize }),
            old(self).wf() ==> final(self).wf(),
    {
        let span = TextSpan::new(pos, 1);
        let mut msg = String::from_str("Illegal character input: '");
        msg.push(ch);
        msg.append("'");
        assert(msg@ =~= illegal_char_message(ch));
        self.report(span, msg);
        assert(self.diags@.drop_last() =~= old(self).diags@);
    }

    /// Files the complaint that a token of class `kind` stands at `span`
    /// where one of class `expected` was required. Nothing already
    /// collected is touched.
    pub fn report_unexpected_token(&mut self, span: TextSpan, kind: TokenKind, expected: TokenKind)
        ensures
            final(self)@ == old(self)@.push(unexpected_token_report(span@, kind, expected)),
            final(self).diags@.len() == old(self).diags@.len() + 1,
            final(self).diags@.drop_last() == old(self).diags@,
            final(self).diags@.last().span == span,
            old(self).wf() && span.wf() ==> final(self).wf(),
    {
        let mut msg = String::from_str("Unexpected token <");
        msg.append(kind.name());
        msg.append(">, expected <");
        msg.append(expected.name());
        msg.append(">");
        self.report(span, msg);
        assert(self.diags@.drop_last() =~= old(self).diags@);
    }
}

} // verus!
