//! The error collector of the tree-walking front end: it latches that an
//! error happened and records each report; the front end decides how to
//! print them.

use vstd::prelude::*;

verus! {

/// One recorded report: the line, where it was found, and the message.
pub struct ErrorRecord {
    pub line: i32,
    pub found_at: String,
    pub message: String,
}

/// Collects error reports and remembers that any arrived.
pub struct ErrorHandler {
    had_error: bool,
    records: Vec<ErrorRecord>,
}

impl ErrorHandler {
    /// Whether any error has been reported.
    pub closed spec fn had(self) -> bool {
        self.had_error
    }

    /// The reports so far, oldest first.
    pub closed spec fn recs(self) -> Seq<ErrorRecord> {
        self.records@
    }

    /// A collector with nothing reported.
    pub fn new() -> (h: ErrorHandler)
        ensures
            !h.had(),
            h.recs() == Seq::<ErrorRecord>::empty(),
    {
        ErrorHandler { had_error: false, records: Vec::new() }
    }

    /// Records one report and latches the error flag.
    pub fn report(&mut self, line: i32, found_at: String, message: String)
        ensures
            final(self).had(),
            final(self).recs().len() == old(self).recs().len() + 1,
            final(self).recs().last().line == line,
            final(self).recs().last().found_at@ == found_at@,
            final(self).recs().last().message@ == message@,
            forall|i: int|
                0 <= i < old(self).recs().len() ==> final(self).recs()[i] == #[trigger] old(
                self).recs()[i],
    {
        let ghost fa = found_at@;
        let ghost msg = message@;
        self.records.push(ErrorRecord { line, found_at, message });
        self.had_error = true;
    }

    /// Records a report with no location context.
    pub fn error(&mut self, line: i32, message: String)
        ensures
            final(self).had(),
            final(self).recs().len() == old(self).recs().len() + 1,
            final(self).recs().last().line == line,
            final(self).recs().last().found_at@ == Seq::<char>::empty(),
            final(self).recs().last().message@ == message@,
            forall|i: int|
                0 <= i < old(self).recs().len() ==> final(self).recs()[i] == #[trigger] old(
                self).recs()[i],
    {
        self.report(line, String::new(), message);
    }

    /// Whether any error has been reported.
    pub fn had_error(&self) -> (b: bool)
        ensures
            b == self.had(),
    {
        self.had_error
    }

    /// Read access to the reports.
    pub fn records(&self) -> (r: &Vec<ErrorRecord>)
        ensures
            r@ == self.recs(),
    {
        &self.records
    }
}

} // verus!
