//! Lexical analysis for a small interpreted language: source text in,
//! classified tokens and line-addressed diagnostics out.

use vstd::prelude::*;

pub mod properties;
pub mod scan_spec;
pub mod scanner;
pub mod token;

verus! {

use crate::token::Report;

/// Session-level error bookkeeping: records diagnostics reported by a driver
/// and whether any error has been seen.  Presentation of the reports
/// (formatting, printing, exit codes) is left to the caller.
pub struct Lox {
    pub had_error: bool,
    pub reports: Vec<Report>,
}

impl Lox {
    /// A fresh session: no error seen, no reports collected.
    pub fn new() -> (l: Lox)
        ensures
            !l.had_error,
            l.reports@ == Seq::<Report>::empty(),
    {
        Lox { had_error: false, reports: Vec::new() }
    }

    /// Record an error at the given line: the error flag is set and the
    /// report is appended, with everything recorded before kept.
    pub fn error(&mut self, line: u32, message: String)
        ensures
            final(self).had_error,
            final(self).reports@ == old(self).reports@.push((Report { line, message })),
    {
        self.had_error = true;
        self.reports.push(Report { line, message });
    }
}

} // verus!
