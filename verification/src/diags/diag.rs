use vstd::prelude::*;

use crate::diags::textspan::Span;
use crate::diags::textspan::TextSpan;

verus! {

/// The mathematical reading of a diagnostic: where, and what it says.
pub struct DiagModel {
    pub span: Span,
    pub msg: Seq<char>,
}

/// A reported, non-fatal problem: a message attached to a region of the
/// source text.
#[derive(Debug)]
pub struct Diag {
    pub span: TextSpan,
    pub msg: String,
}

impl View for Diag {
    type V = DiagModel;

    open spec fn view(&self) -> DiagModel {
        DiagModel { span: self.span@, msg: self.msg@ }
    }
}

impl Clone for Diag {
    fn clone(&self) -> (copy: Self)
        ensures
            copy == *self,
    {
        Diag { span: self.span, msg: self.msg.clone() }
    }
}

impl Diag {
    /// A diagnostic is well formed when its span is.
    pub open spec fn wf(&self) -> bool {
        self.span.wf()
    }

    /// The diagnostic that says `msg` about `span`.
    pub fn new(span: TextSpan, msg: String) -> (diag: Self)
        ensures
            diag.span == span,
            diag.msg == msg,
            diag@ == (DiagModel { span: span@, msg: msg@ }),
    {
        Self { span, msg }
    }
}

} // verus!
