//! Errors in scripts, with the place where they were met.
use vstd::prelude::*;

use crate::text::{decimal, push_decimal};

verus! {

/// What is wrong with a script, and where.
#[derive(Debug, Clone, PartialEq, Eq)]
pub struct QcError {
    /// The file.
    pub file: String,
    /// The line, counted from 1; 0 where none applies.
    pub line: usize,
    /// What is wrong.
    pub message: String,
}

/// An error as a mathematical value.
pub struct ErrorView {
    /// The file.
    pub file: Seq<char>,
    /// The line.
    pub line: nat,
    /// What is wrong.
    pub message: Seq<char>,
}

impl View for QcError {
    type V = ErrorView;

    open spec fn view(&self) -> ErrorView {
        ErrorView { file: self.file@, line: self.line as nat, message: self.message@ }
    }
}

impl QcError {
    /// An error.
    pub fn new(file: String, line: usize, message: String) -> (r: Self)
        ensures
            r@ == (ErrorView { file: file@, line: line as nat, message: message@ }),
    {
        QcError { file, line, message }
    }

    /// The error on one line: file, line and message.
    pub fn describe(&self) -> (r: String)
        ensures
            r@ == self.file@ + ":"@ + decimal(self.line as nat) + ": "@ + self.message@,
    {
        let mut s: String = self.file.clone();
        s.push_str(":");
        push_decimal(&mut s, self.line as u64);
        s.push_str(": ");
        s.push_str(self.message.as_str());
        s
    }
}

} // verus!
