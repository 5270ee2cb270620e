pub mod auto;
pub mod builder;
pub mod types;
