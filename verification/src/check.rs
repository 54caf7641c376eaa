use vstd::prelude::*;

use crate::span::Span;

verus! {

/// Mathematical value of one diagnostic.
pub ghost struct DiagView {
    pub spans: Seq<Span>,
    pub message: Seq<char>,
}

/// One non-fatal resolution problem: a message and the source spans it
/// cites — the offending occurrence first and, when one is known, the
/// previous definition's span after it.
pub struct CheckerError {
    pub spans: Vec<Span>,
    pub text: String,
}

impl View for CheckerError {
    type V = DiagView;

    open spec fn view(&self) -> DiagView {
        DiagView { spans: self.spans@, message: self.text@ }
    }
}

impl CheckerError {
    pub fn new(spans: Vec<Span>, text: String) -> (r: CheckerError)
        ensures
            r@ == (DiagView { spans: spans@, message: text@ }),
    {
        CheckerError { spans, text }
    }

    pub fn spans(&self) -> (r: &Vec<Span>)
        ensures
            r@ == self@.spans,
    {
        &self.spans
    }

    pub fn text(&self) -> (r: &String)
        ensures
            r@ == self@.message,
    {
        &self.text
    }
}

/// Accumulates the diagnostics of one resolution pass. Adding one never
/// halts traversal: one pass surfaces every duplicate-definition problem
/// in the unit, not only the first.
pub struct ErrorCollector {
    pub errors: Vec<CheckerError>,
}

impl View for ErrorCollector {
    type V = Seq<DiagView>;

    open spec fn view(&self) -> Seq<DiagView> {
        self.errors@.map_values(|e: CheckerError| e@)
    }
}

impl ErrorCollector {
    pub fn new() -> (r: ErrorCollector)
        ensures
            r@ == Seq::<DiagView>::empty(),
    {
        let r = ErrorCollector { errors: Vec::new() };
        proof {
            assert(r@ =~= Seq::<DiagView>::empty());
        }
        r
    }

    /// Record one more diagnostic.
    pub fn add_error(&mut self, error: CheckerError)
        ensures
            final(self)@ == old(self)@.push(error@),
    {
        let ghost pre = self@;
        let ghost e = error@;
        self.errors.push(error);
        proof {
            assert(self@ =~= pre.push(e));
        }
    }

    pub fn errors(&self) -> (r: &Vec<CheckerError>)
        ensures
            r@.map_values(|e: CheckerError| e@) == self@,
    {
        &self.errors
    }

    pub fn len(&self) -> (r: usize)
        ensures
            r == self@.len(),
    {
        self.errors.len()
    }
}

} // verus!
