//! Errors of lexical and syntactic analysis.
use crate::lex::Token;
use crate::span::Span;
use vstd::prelude::*;

verus! {

/// Errors that stop the analysis of a program.
#[derive(Debug, Clone, Copy, PartialEq, Eq)]
pub enum Error<'a> {
    /// The input ended early.
    Eof,
    /// Unexpected byte in the program's source code.
    UnexpectedByte {
        /// The unexpected byte.
        byte: u8,
        /// Location of the byte in the program's source code.
        span: Span,
    },
    /// Token not expected by the grammar.
    UnexpectedToken(Token<'a>),
}

/// Errors collected during an analysis, in the order they were found.
#[derive(Debug)]
pub struct Errors<'a>(Vec<Error<'a>>);

impl<'a> View for Errors<'a> {
    type V = Seq<Error<'a>>;

    closed spec fn view(&self) -> Seq<Error<'a>> {
        self.0@
    }
}

impl<'a> Errors<'a> {
    /// No error yet.
    pub fn new() -> (r: Self)
        ensures
            r@ == Seq::<Error<'a>>::empty(),
    {
        Errors(Vec::new())
    }

    /// Records one more error.
    pub fn push(&mut self, error: Error<'a>)
        ensures
            final(self)@ == old(self)@.push(error),
    {
        self.0.push(error);
    }

    /// The errors, in the order they were found.
    pub fn as_slice(&self) -> (r: &[Error<'a>])
        ensures
            r@ == self@,
    {
        self.0.as_slice()
    }
}

} // verus!
