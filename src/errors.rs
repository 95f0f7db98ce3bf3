//! Diagnostics collected by the analysis passes.
use vstd::prelude::*;
use crate::token::Token;
use crate::types::ConcreteType;

verus! {

/// The kinds of problem the analysis reports.
#[derive(Debug, Clone, Copy, PartialEq, Eq, Structural)]
pub enum ErrorKind {
    /// A function, type alias, parameter or variable declared twice.
    DuplicateDefinition,
    /// A variable, function or type name that is not in scope.
    UnknownReference,
    /// Disagreeing constraints on one type.
    AmbiguousType,
    /// No constraint reaches a concrete type.
    NoTypeInfo,
}

/// One diagnostic: its kind, the token it is about, related tokens,
/// the subject (a name, or what was being inferred) and, for an ambiguous
/// type, the conflicting candidates.
#[derive(Debug)]
pub struct CheckerError {
    pub kind: ErrorKind,
    pub token: Token,
    pub related: Vec<Token>,
    pub subject: String,
    pub candidates: Vec<ConcreteType>,
}

/// What the contracts track of a diagnostic.
pub struct ErrorView {
    pub kind: ErrorKind,
    pub token: Token,
}

impl CheckerError {
    pub open spec fn summary(&self) -> ErrorView {
        ErrorView { kind: self.kind, token: self.token }
    }

    /// A diagnostic with no related tokens and no candidates.
    pub fn new(kind: ErrorKind, token: Token, subject: String) -> (r: CheckerError)
        ensures
            r.kind == kind,
            r.token == token,
            r.subject == subject,
            r.related@.len() == 0,
            r.candidates@.len() == 0,
    {
        CheckerError { kind, token, related: Vec::new(), subject, candidates: Vec::new() }
    }
}

/// Append-only list of diagnostics, in discovery order.
#[derive(Debug)]
pub struct ErrorCollector {
    errors: Vec<CheckerError>,
}

impl View for ErrorCollector {
    type V = Seq<ErrorView>;

    closed spec fn view(&self) -> Seq<ErrorView> {
        self.errors@.map_values(|e: CheckerError| e.summary())
    }
}

impl ErrorCollector {
    /// An empty collector.
    pub fn new() -> (r: ErrorCollector)
        ensures
            r@ == Seq::<ErrorView>::empty(),
    {
        let r = ErrorCollector { errors: Vec::new() };
        proof {
            assert(r@ =~= Seq::<ErrorView>::empty());
        }
        r
    }

    /// Appends a diagnostic.
    pub fn add_error(&mut self, error: CheckerError)
        ensures
            final(self)@ == old(self)@.push(error.summary()),
    {
        self.errors.push(error);
        proof {
            assert(final(self)@ =~= old(self)@.push(error.summary()));
        }
    }

    /// The diagnostics so far.
    pub fn get_errors(&self) -> (r: &Vec<CheckerError>)
        ensures
            r@.map_values(|e: CheckerError| e.summary()) == self@,
    {
        &self.errors
    }

    /// How many diagnostics were collected.
    pub fn len(&self) -> (r: usize)
        ensures
            r == self@.len(),
    {
        self.errors.len()
    }

    /// True iff no diagnostic was collected.
    pub fn is_empty(&self) -> (r: bool)
        ensures
            r == (self@.len() == 0),
    {
        self.errors.len() == 0
    }
}

} // verus!
