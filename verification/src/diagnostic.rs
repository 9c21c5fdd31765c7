//! Diagnostics: what the parser expected and what it found instead.

use vstd::prelude::*;
use crate::token::{Token, TokenType, TokenView};

verus! {

/// What the parser was looking for when it gave a statement up.
#[derive(Debug, PartialEq, Eq, Clone, Copy, Structural)]
pub enum Expected {
    /// A token of this kind.
    Kind(TokenType),
    /// A token that can start an expression.
    Expression,
}

/// One parse failure: the expectation that was not met and the token that
/// stood in its place.
#[derive(Debug)]
pub struct Diagnostic {
    pub expected: Expected,
    pub found: Token,
}

/// The mathematical value of a diagnostic.
pub struct DiagnosticView {
    pub expected: Expected,
    pub found: TokenView,
}

impl View for Diagnostic {
    type V = DiagnosticView;

    open spec fn view(&self) -> DiagnosticView {
        DiagnosticView { expected: self.expected, found: self.found@ }
    }
}

impl Clone for Diagnostic {
    fn clone(&self) -> (copy: Self)
        ensures
            copy@ == self@,
    {
        Diagnostic { expected: self.expected, found: self.found.clone() }
    }
}

/// The values of the diagnostics in `diagnostics`, in order.
pub open spec fn diagnostic_views(diagnostics: Seq<Diagnostic>) -> Seq<DiagnosticView> {
    Seq::new(diagnostics.len(), |i: int| diagnostics[i]@)
}

} // verus!
