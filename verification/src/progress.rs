//! How far a parse has come, for a progress bar.
use vstd::prelude::*;

verus! {

/// The bytes parsed so far, of the bytes there are. Both are zero before the
/// first parse.
#[derive(Copy, Clone, Debug, PartialEq, Eq, Structural)]
pub struct ParseProgress {
    pub parsed: u64,
    pub total: u64,
}

impl ParseProgress {
    pub fn new() -> (p: ParseProgress)
        ensures
            p == (ParseProgress { parsed: 0, total: 0 }),
    {
        ParseProgress { parsed: 0, total: 0 }
    }

    /// Starts a parse of `total` bytes.
    pub fn reset_parse_progress(&mut self, total: u64)
        ensures
            *final(self) == (ParseProgress { parsed: 0, total }),
    {
        self.parsed = 0;
        self.total = total;
    }

    /// The parse has reached byte `parsed`.
    pub fn report_parse_progress(&mut self, parsed: u64)
        ensures
            *final(self) == (ParseProgress { parsed, total: old(self).total }),
    {
        self.parsed = parsed;
    }

    /// The parse is done, wherever it last reported from.
    pub fn finish_parse_progress(&mut self)
        ensures
            *final(self) == (ParseProgress { parsed: old(self).total, total: old(self).total }),
    {
        self.parsed = self.total;
    }

    /// The bytes parsed and the total.
    pub fn current_progress(&self) -> (r: (u64, u64))
        ensures
            r == (self.parsed, self.total),
    {
        (self.parsed, self.total)
    }
}

} // verus!
