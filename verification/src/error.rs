//! The failures a sweep can meet.

use vstd::prelude::*;

verus! {

/// A labelled value in the output of a benchmarked program.
#[derive(Debug, Clone, Copy, PartialEq, Eq, Structural)]
pub enum Field {
    /// The elapsed time, labelled `TIME`.
    Time,
    /// The rewrite count, labelled `RWTS`.
    Rwts,
}

/// Everything that can go wrong for a revision, a combination or a dataset.
#[derive(Debug, Clone, PartialEq, Eq)]
pub enum Error {
    /// The ancestry query itself failed.
    VcsQueryFailed,
    /// A revision could not be checked out.
    VcsCheckoutFailed,
    /// The runtime of a revision could not be built.
    BuildFailed,
    /// An input file could not be compiled to a binary.
    CompileFailed,
    /// The process ran past its deadline and was killed.
    ProcessTimedOut,
    /// The process ended with a non-zero exit code; holds what it printed.
    ProcessNonZeroExit(String),
    /// A labelled field does not occur in the output.
    MissingField(Field),
    /// A labelled field occurs, but its value is not of the expected form.
    MalformedField(Field),
    /// A text is not the encoding of any mode.
    InvalidModeEncoding,
    /// A text is not a well-formed dataset.
    InvalidDatasetFormat,
}

impl Error {
    /// The message of this error, as a sequence of characters.
    pub open spec fn message_text(self) -> Seq<char> {
        match self {
            Error::VcsQueryFailed => "ancestry query failed"@,
            Error::VcsCheckoutFailed => "checkout failed"@,
            Error::BuildFailed => "build failed"@,
            Error::CompileFailed => "compilation failed"@,
            Error::ProcessTimedOut => "process timed out"@,
            Error::ProcessNonZeroExit(_) => "process exited with a non-zero code"@,
            Error::MissingField(Field::Time) => "missing time in hvmc output"@,
            Error::MissingField(Field::Rwts) => "missing rwts in hvmc output"@,
            Error::MalformedField(Field::Time) => "invalid time in hvmc output"@,
            Error::MalformedField(Field::Rwts) => "invalid rwts in hvmc output"@,
            Error::InvalidModeEncoding => "invalid mode"@,
            Error::InvalidDatasetFormat => "invalid csv"@,
        }
    }

    /// A one-line description for diagnostics.
    pub fn message(&self) -> (text: String)
        ensures
            text@ == self.message_text(),
    {
        match self {
            Error::VcsQueryFailed => "ancestry query failed".to_owned(),
            Error::VcsCheckoutFailed => "checkout failed".to_owned(),
            Error::BuildFailed => "build failed".to_owned(),
            Error::CompileFailed => "compilation failed".to_owned(),
            Error::ProcessTimedOut => "process timed out".to_owned(),
            Error::ProcessNonZeroExit(_) => "process exited with a non-zero code".to_owned(),
            Error::MissingField(Field::Time) => "missing time in hvmc output".to_owned(),
            Error::MissingField(Field::Rwts) => "missing rwts in hvmc output".to_owned(),
            Error::MalformedField(Field::Time) => "invalid time in hvmc output".to_owned(),
            Error::MalformedField(Field::Rwts) => "invalid rwts in hvmc output".to_owned(),
            Error::InvalidModeEncoding => "invalid mode".to_owned(),
            Error::InvalidDatasetFormat => "invalid csv".to_owned(),
        }
    }
}

} // verus!
