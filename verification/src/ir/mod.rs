pub mod kinds;
pub mod names;
pub mod types;
