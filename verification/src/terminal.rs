use crate::error::Error;
use vstd::prelude::*;

verus! {

/// Something that knows how many columns the terminal has.
pub trait Terminal {
    /// The number of columns, or an error where it is not known.
    fn width(&self) -> Result<usize, Error>;
}

/// The terminal that the process writes to.
#[derive(Clone, Debug)]
pub struct TerminalInfo {}

/// `term_size::dimensions`: the columns and rows of the terminal that the
/// process is attached to, `None` where there is none. Nothing is known of the
/// numbers beforehand.
#[verifier::external_body]
fn dimensions() -> Option<(usize, usize)> {
    term_size::dimensions()
}

impl Terminal for TerminalInfo {
    /// The columns of the terminal as it is now: what its dimensions tell,
    /// and the error that the width is not known where it has none.
    fn width(&self) -> (out: Result<usize, Error>)
        ensures
            exists|found: Option<(usize, usize)>| out == width_in(found),
    {
        let found = dimensions();
        let out = width_of(found);
        assert(out == width_in(found));
        out
    }
}

/// The width that the dimensions `found` tell: the number of columns, the
/// first of the two; without dimensions the width is not known.
pub open spec fn width_in(found: Option<(usize, usize)>) -> Result<usize, Error> {
    match found {
        Some((width, _)) => Ok(width),
        None => Err(Error::TerminalWidthError),
    }
}

/// The number of columns among the dimensions `found`, or the error that the
/// width is not known where there are none.
pub fn width_of(found: Option<(usize, usize)>) -> (out: Result<usize, Error>)
    ensures
        out == width_in(found),
{
    match found {
        Some((width, _)) => Ok(width),
        None => Err(Error::TerminalWidthError),
    }
}

} // verus!
