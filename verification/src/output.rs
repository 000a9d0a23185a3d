//! Text that stands for a status where colors are not in use.

use vstd::prelude::*;

verus! {

/// The status that a message reports.
#[derive(Debug, Clone, Copy, PartialEq, Eq)]
pub enum StatusLabel {
    Info,
    Pass,
    Warning,
    Fail,
}

impl StatusLabel {
    /// The bracketed label of the status.
    pub open spec fn text(self) -> Seq<char> {
        match self {
            StatusLabel::Info => "[INFO]"@,
            StatusLabel::Pass => "[PASS]"@,
            StatusLabel::Warning => "[WARN]"@,
            StatusLabel::Fail => "[FAIL]"@,
        }
    }

    /// The bracketed label of the status.
    pub fn as_str(&self) -> (label: &'static str)
        ensures
            label@ == self.text(),
    {
        match self {
            StatusLabel::Info => "[INFO]",
            StatusLabel::Pass => "[PASS]",
            StatusLabel::Warning => "[WARN]",
            StatusLabel::Fail => "[FAIL]",
        }
    }
}

} // verus!
