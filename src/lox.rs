//! The driver state kept across runs: whether any run reported a diagnostic.
use vstd::prelude::*;

use crate::grammar::{diagnostics, scanned};
use crate::scanner::Scanner;
use crate::token::{ScanError, Token};

verus! {

pub struct Lox {
    had_error: bool,
}

impl Lox {
    /// Whether a run since the last reset reported a diagnostic.
    pub closed spec fn spec_had_error(&self) -> bool {
        self.had_error
    }

    #[must_use]
    pub fn new() -> (r: Self)
        ensures
            !r.spec_had_error(),
    {
        Self { had_error: false }
    }

    pub fn had_error(&self) -> (r: bool)
        ensures
            r == self.spec_had_error(),
    {
        self.had_error
    }

    /// Forgets earlier diagnostics, as between two lines typed at a prompt.
    pub fn reset_error(&mut self)
        ensures
            !final(self).spec_had_error(),
    {
        self.had_error = false;
    }

    /// Scans one source text: returns its tokens and its diagnostics, and
    /// records whether there were any.
    pub fn run(&mut self, source: String) -> (r: (Vec<Token>, Vec<ScanError>))
        requires
            source@.len() < usize::MAX,
        ensures
            scanned(source@, r.0@),
            r.1@ == diagnostics(source@),
            final(self).spec_had_error() == (old(self).spec_had_error() || r.1@.len() > 0),
    {
        let scanner = Scanner::new(source);
        let mut errors: Vec<ScanError> = Vec::new();
        let tokens = scanner.scan_tokens(&mut errors);
        assert(errors@ =~= diagnostics(source@));
        if errors.len() > 0 {
            self.had_error = true;
        }
        (tokens, errors)
    }
}

} // verus!
