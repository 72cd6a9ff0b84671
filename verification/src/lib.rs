pub mod brew;
pub mod color;
pub mod error;
pub mod pattern;
pub mod range;
pub mod records;
pub mod table;
pub mod terminal;
pub mod text;
pub mod version;
