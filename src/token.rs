//! Source tokens carried by the syntax tree for diagnostics.
use vstd::prelude::*;

verus! {

/// A position in a source file.
#[derive(Debug, Clone, Copy, PartialEq, Eq, Structural, Default)]
pub struct TextLocation {
    pub index: usize,
    pub line: usize,
    pub column: usize,
}

/// A slice of source text with its location.
#[derive(Debug)]
pub struct Token {
    pub location: TextLocation,
    pub text: String,
}

impl Token {
    /// Creates a token for the given text at the given location.
    pub fn new(text: String, location: TextLocation) -> (r: Token)
        ensures
            r.text == text,
            r.location == location,
    {
        Token { location, text }
    }

    /// Creates a token representing an identifier.
    pub fn new_ident(text: String, location: TextLocation) -> (r: Token)
        ensures
            r.text == text,
            r.location == location,
    {
        Token { location, text }
    }

    /// The source text of this token.
    pub fn text(&self) -> (r: &str)
        ensures
            r@ == self.text@,
    {
        self.text.as_str()
    }

    /// Where the token stands in its file.
    pub fn location(&self) -> (r: &TextLocation)
        ensures
            *r == self.location,
    {
        &self.location
    }
}

impl Clone for Token {
    fn clone(&self) -> (r: Token)
        ensures
            r == *self,
    {
        Token { location: self.location, text: self.text.clone() }
    }
}

} // verus!
