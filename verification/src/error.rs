use vstd::prelude::*;

verus! {

/// What can go wrong while a report is made.
#[derive(Clone, Debug)]
pub enum Error {
    /// A table could not be read or written as CSV.
    Csv(String),
    /// The CSV writer could not hand over what it had written.
    CsvIntoInner(String),
    /// The package manager could not be run.
    Command(String),
    /// The package manager's output was not UTF-8.
    FromUtf8(String),
    /// A range reaches beyond the list that it was taken from.
    IndexOutOfRange,
    /// The width of the terminal is not known.
    TerminalWidthError,
    /// A header line does not have the shape of a header.
    NoCapturesError,
    /// The range of parts and the range of delimiters do not start together.
    VersionRangeStartError,
    /// The range of parts does not end behind the range of delimiters.
    VersionRangeEndError,
}

impl Error {
    /// The message of the error: the wrapped message where there is one, else
    /// a fixed sentence.
    pub open spec fn message_spec(self) -> Seq<char> {
        match self {
            Error::Csv(m) => m@,
            Error::CsvIntoInner(m) => m@,
            Error::Command(m) => m@,
            Error::FromUtf8(m) => m@,
            Error::IndexOutOfRange => "The index out of range."@,
            Error::TerminalWidthError => "The terminal width is unknown."@,
            Error::NoCapturesError => "The text does not match the pattern."@,
            Error::VersionRangeStartError => "The start of the two ranges must be the same."@,
            Error::VersionRangeEndError =>
                "The end of the first range must be greater than the end of the second range."@,
        }
    }

    /// The message of the error, as text.
    pub fn message(&self) -> (out: String)
        ensures
            out@ == self.message_spec(),
    {
        match self {
            Error::Csv(m) => m.clone(),
            Error::CsvIntoInner(m) => m.clone(),
            Error::Command(m) => m.clone(),
            Error::FromUtf8(m) => m.clone(),
            Error::IndexOutOfRange => "The index out of range.".to_owned(),
            Error::TerminalWidthError => "The terminal width is unknown.".to_owned(),
            Error::NoCapturesError => "The text does not match the pattern.".to_owned(),
            Error::VersionRangeStartError => "The start of the two ranges must be the same."
                .to_owned(),
            Error::VersionRangeEndError =>
                "The end of the first range must be greater than the end of the second range."
                    .to_owned(),
        }
    }
}

} // verus!
