pub mod cli;
pub mod ir;
pub mod paths;
pub mod text;
pub mod split;
pub mod lang;
pub mod query;
pub mod index;
pub mod format;
pub mod commands;
pub mod daemon;
pub mod parser;
