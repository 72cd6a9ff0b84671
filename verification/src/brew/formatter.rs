pub mod brew_outdated;
pub mod brew_update;

pub use brew_outdated::BrewOutdated;
pub use brew_update::BrewUpdate;
