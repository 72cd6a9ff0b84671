pub mod formatter;
pub mod outdated;
pub mod parser;
pub mod version;

pub use formatter::BrewOutdated;
pub use outdated::{Cask, Formula, Json, Outdated};
pub use parser::{BrewOutdatedData, BrewOutdatedDetail, BrewUpdateData};

use vstd::prelude::*;

verus! {

/// The package manager's outputs, ready to be shown.
pub struct Brew {
    pub outdated: BrewOutdated,
}

impl Brew {
    /// Takes the list of outdated packages as it was printed.
    pub fn new(outdated_text: &str) -> (out: Self)
        ensures
            out.outdated.data.text@ == outdated_text@,
    {
        let outdated_data = BrewOutdatedData::new(outdated_text);
        let outdated_formatter = BrewOutdated::new(&outdated_data);
        Brew { outdated: outdated_formatter }
    }
}

} // verus!
