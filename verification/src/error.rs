//! Error values: the runtime error of the interpreter and the sink that
//! collects the scanner's reports.

use vstd::prelude::*;
use crate::lox::{fmt_runtime_error, runtime_error_text};
use crate::token::Token;

verus! {

/// A runtime error, holding its full report.
#[derive(Debug)]
pub struct RuntimeError(pub String);

impl RuntimeError {
    /// The error reported at `token`'s line with `message`.
    pub fn new(token: &Token, message: &str) -> (r: RuntimeError)
        ensures
            r.0@ == runtime_error_text(token.line as nat, message@),
    {
        RuntimeError(fmt_runtime_error(token.line, message))
    }
}

/// The reports collected while scanning, in the order they were made.
pub struct ErrorSink {
    errors: Vec<String>,
}

impl View for ErrorSink {
    type V = Seq<Seq<char>>;

    closed spec fn view(&self) -> Seq<Seq<char>> {
        self.errors@.map_values(|e: String| e@)
    }
}

impl ErrorSink {
    /// An empty sink.
    pub fn new() -> (r: ErrorSink)
        ensures
            r@ == Seq::<Seq<char>>::empty(),
    {
        ErrorSink { errors: Vec::new() }
    }

    /// The reports, in order.
    pub fn errors(&self) -> (r: &Vec<String>)
        ensures
            r@.map_values(|e: String| e@) == self@,
    {
        &self.errors
    }

    /// Records one more report.
    pub fn append(&mut self, msg: &str)
        ensures
            final(self)@ == old(self)@.push(msg@),
    {
        self.errors.push(crate::text::text_of(msg));
        assert(final(self)@ =~= old(self)@.push(msg@));
    }

    /// No report was recorded.
    pub fn is_empty(&self) -> (r: bool)
        ensures
            r == (self@.len() == 0),
    {
        self.errors.len() == 0
    }
}

} // verus!
