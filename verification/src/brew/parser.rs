pub mod brew_outdated;
pub mod brew_update;

pub use brew_outdated::{BrewOutdatedData, BrewOutdatedDetail};
pub use brew_update::BrewUpdateData;
